//! Strings as sequences of characters: splitting into lines, joining,
//! trimming and decimal notation.
use vstd::prelude::*;

verus! {

/// `String::push` appends one character to the end of the string.
pub assume_specification[ String::push ](s: &mut String, c: char)
    ensures
        final(s)@ == old(s)@.push(c),
;

/// `==` of `str` (std): true exactly when both strings hold the same
/// characters in the same order.
#[verifier::external_body]
pub(crate) fn same_text(a: &str, b: &str) -> (r: bool)
    ensures
        r == (a@ == b@),
{
    a == b
}

/// What `str::to_lowercase` (std) makes of a text: the Unicode lowercase form.
pub uninterp spec fn lowercase_of(s: Seq<char>) -> Seq<char>;

/// `str::to_lowercase` (std). The result is named, not described: it is the
/// Unicode lowercase mapping of the whole text.
#[verifier::external_body]
pub(crate) fn lowercase(s: &str) -> (r: String)
    ensures
        r@ == lowercase_of(s@),
{
    s.to_lowercase()
}

/// The texts that a list of strings holds.
pub open spec fn texts(v: Seq<String>) -> Seq<Seq<char>> {
    Seq::new(v.len(), |i: int| v[i]@)
}

/// The text of an optional string.
pub open spec fn opt_text(s: Option<String>) -> Option<Seq<char>> {
    match s {
        Some(t) => Some(t@),
        None => None,
    }
}

pub fn chars_of(s: &str) -> (r: Vec<char>)
    ensures
        r@ == s@,
{
    let mut out: Vec<char> = Vec::new();
    for c in it: s.chars()
        invariant
            out@ == s@.take(it.index() as int),
            it.seq() == s@,
    {
        out.push(c);
    }
    out
}

/// The string of the characters `from..to`.
pub fn string_of(chars: &Vec<char>, from: usize, to: usize) -> (r: String)
    requires
        from <= to <= chars@.len(),
    ensures
        r@ == chars@.subrange(from as int, to as int),
{
    let mut out = String::new();
    let mut i: usize = from;
    while i < to
        invariant
            from <= i <= to <= chars@.len(),
            out@ == chars@.subrange(from as int, i as int),
        decreases to - i,
    {
        out.push(chars[i]);
        i = i + 1;
        assert(chars@.subrange(from as int, i as int) =~= chars@.subrange(
            from as int,
            i - 1,
        ).push(chars@[i - 1]));
    }
    out
}

pub fn clone_texts(v: &Vec<String>) -> (r: Vec<String>)
    ensures
        r@.len() == v@.len(),
        texts(r@) == texts(v@),
{
    let mut out: Vec<String> = Vec::new();
    let mut i: usize = 0;
    while i < v.len()
        invariant
            i <= v@.len(),
            out@.len() == i,
            forall|k: int| 0 <= k < i ==> (#[trigger] out@[k])@ == v@[k]@,
        decreases v@.len() - i,
    {
        out.push(v[i].clone());
        i = i + 1;
    }
    assert(texts(out@) =~= texts(v@));
    out
}

pub fn clone_opt(s: &Option<String>) -> (r: Option<String>)
    ensures
        opt_text(r) == opt_text(*s),
{
    match s {
        Some(t) => Some(t.clone()),
        None => None,
    }
}

// ─── Lines ───

/// The position of the first newline, or the length where there is none.
pub open spec fn newline_at(s: Seq<char>) -> int
    decreases s.len(),
{
    if s.len() == 0 || s[0] == '\n' {
        0
    } else {
        1 + newline_at(s.drop_first())
    }
}

pub open spec fn without_cr(s: Seq<char>) -> Seq<char> {
    if s.len() > 0 && s.last() == '\r' {
        s.drop_last()
    } else {
        s
    }
}

pub proof fn lemma_newline_at(s: Seq<char>)
    ensures
        0 <= newline_at(s) <= s.len(),
        newline_at(s) < s.len() ==> s[newline_at(s)] == '\n',
        forall|k: int| 0 <= k < newline_at(s) ==> s[k] != '\n',
    decreases s.len(),
{
    if s.len() > 0 && s[0] != '\n' {
        lemma_newline_at(s.drop_first());
        let n = newline_at(s.drop_first());
        assert forall|k: int| 0 <= k < 1 + n implies s[k] != '\n' by {
            if k > 0 {
                assert(s.drop_first()[k - 1] == s[k]);
            }
        }
    }
}

/// A position before which there is no newline and at which there is one (or
/// the text ends) is where the first newline is.
pub proof fn lemma_newline_at_is(s: Seq<char>, n: int)
    requires
        0 <= n <= s.len(),
        n < s.len() ==> s[n] == '\n',
        forall|k: int| 0 <= k < n ==> s[k] != '\n',
    ensures
        newline_at(s) == n,
{
    lemma_newline_at(s);
    let m = newline_at(s);
    if m < n {
        assert(s[m] != '\n');
    }
    if n < m {
        assert(s[n] != '\n');
    }
}

/// The lines of a text. Each newline ends a line, a carriage return just
/// before it belongs to the line ending, and what follows the last newline is
/// a line unless it is empty.
pub open spec fn lines_of(s: Seq<char>) -> Seq<Seq<char>>
    decreases s.len(),
{
    if s.len() == 0 {
        Seq::empty()
    } else {
        let n = newline_at(s);
        if n < 0 || n >= s.len() {
            seq![s]
        } else {
            seq![without_cr(s.take(n))] + lines_of(s.skip(n + 1))
        }
    }
}

pub fn lines(s: &str) -> (r: Vec<String>)
    ensures
        texts(r@) == lines_of(s@),
{
    let cs = chars_of(s);
    let mut out: Vec<String> = Vec::new();
    let mut start: usize = 0;
    let mut i: usize = 0;
    assert(cs@.skip(0) =~= cs@);
    while i < cs.len()
        invariant
            start <= i <= cs@.len(),
            forall|k: int| start <= k < i ==> cs@[k] != '\n',
            texts(out@) + lines_of(cs@.skip(start as int)) == lines_of(cs@),
        decreases cs@.len() - i,
    {
        if cs[i] == '\n' {
            let ghost rest = cs@.skip(start as int);
            let end: usize = if i > start && cs[i - 1] == '\r' {
                i - 1
            } else {
                i
            };
            let line = string_of(&cs, start, end);
            proof {
                let n = i - start;
                assert(rest[n] == '\n');
                assert forall|k: int| 0 <= k < n implies rest[k] != '\n' by {
                    assert(rest[k] == cs@[start + k]);
                }
                lemma_newline_at_is(rest, n);
                assert(line@ =~= without_cr(rest.take(n)));
                assert(rest.skip(n + 1) =~= cs@.skip(i + 1));
                assert(lines_of(rest) == seq![line@] + lines_of(cs@.skip(i + 1)));
            }
            let ghost before = out@;
            out.push(line);
            proof {
                assert(texts(out@) =~= texts(before) + seq![line@]);
                assert(texts(out@) + lines_of(cs@.skip(i + 1)) =~= texts(before) + (seq![line@]
                    + lines_of(cs@.skip(i + 1))));
            }
            start = i + 1;
        }
        i = i + 1;
    }
    let ghost rest = cs@.skip(start as int);
    if start < cs.len() {
        let line = string_of(&cs, start, cs.len());
        proof {
            assert(line@ =~= rest);
            assert forall|k: int| 0 <= k < rest.len() implies rest[k] != '\n' by {
                assert(rest[k] == cs@[start + k]);
            }
            lemma_newline_at_is(rest, rest.len() as int);
        }
        let ghost before = out@;
        out.push(line);
        assert(texts(out@) =~= texts(before) + seq![line@]);
    } else {
        assert(texts(out@) + lines_of(rest) =~= texts(out@));
    }
    out
}

// ─── Joining ───

/// The parts with the separator between each two of them.
pub open spec fn joined(parts: Seq<Seq<char>>, sep: Seq<char>) -> Seq<char>
    decreases parts.len(),
{
    if parts.len() == 0 {
        Seq::empty()
    } else if parts.len() == 1 {
        parts[0]
    } else {
        joined(parts.drop_last(), sep) + sep + parts.last()
    }
}

pub fn join(parts: &[String], sep: &str) -> (r: String)
    ensures
        r@ == joined(texts(parts@), sep@),
{
    let mut out = String::new();
    let mut i: usize = 0;
    while i < parts.len()
        invariant
            i <= parts@.len(),
            out@ == joined(texts(parts@).take(i as int), sep@),
        decreases parts@.len() - i,
    {
        let ghost done = texts(parts@).take(i + 1);
        proof {
            assert(done.drop_last() =~= texts(parts@).take(i as int));
        }
        if i > 0 {
            out.append(sep);
            out.append(parts[i].as_str());
        } else {
            out.append(parts[i].as_str());
            assert(out@ =~= done[0]);
        }
        i = i + 1;
    }
    assert(texts(parts@).take(i as int) =~= texts(parts@));
    out
}

/// Joining from the front.
pub proof fn lemma_joined_front(parts: Seq<Seq<char>>, sep: Seq<char>)
    requires
        parts.len() >= 2,
    ensures
        joined(parts, sep) == parts[0] + sep + joined(parts.drop_first(), sep),
    decreases parts.len(),
{
    let front = parts.drop_last();
    let rest = parts.drop_first();
    assert(rest.last() == parts.last());
    if parts.len() > 2 {
        lemma_joined_front(front, sep);
        assert(front.drop_first() =~= rest.drop_last());
        assert(joined(parts, sep) =~= parts[0] + sep + joined(rest, sep));
    } else {
        assert(joined(front, sep) == parts[0]);
        assert(joined(rest, sep) == parts[1]);
    }
}

/// A line that survives being written between newlines and read again.
pub open spec fn is_plain_line(line: Seq<char>) -> bool {
    &&& line.len() > 0
    &&& line.last() != '\r'
    &&& forall|i: int| 0 <= i < line.len() ==> #[trigger] line[i] != '\n'
}

/// Lines that hold no newline, do not end in a carriage return and are not empty
/// are what is read from the text that joins them.
pub proof fn law_lines_of_joined(parts: Seq<Seq<char>>)
    requires
        forall|i: int| 0 <= i < parts.len() ==> is_plain_line(#[trigger] parts[i]),
    ensures
        lines_of(joined(parts, "\n"@)) == parts,
    decreases parts.len(),
{
    reveal_strlit("\n");
    let s = joined(parts, "\n"@);
    if parts.len() == 0 {
        assert(lines_of(s) =~= parts);
    } else if parts.len() == 1 {
        assert(is_plain_line(parts[0]));
        lemma_newline_at_is(s, s.len() as int);
        assert(lines_of(s) =~= parts);
    } else {
        let rest = parts.drop_first();
        let n = parts[0].len() as int;
        assert(is_plain_line(parts[0]));
        assert forall|i: int| 0 <= i < rest.len() implies is_plain_line(#[trigger] rest[i]) by {
            assert(rest[i] == parts[i + 1]);
        }
        lemma_joined_front(parts, "\n"@);
        law_lines_of_joined(rest);
        assert(s[n] == '\n');
        assert forall|k: int| 0 <= k < n implies s[k] != '\n' by {
            assert(s[k] == parts[0][k]);
        }
        lemma_newline_at_is(s, n);
        assert(s.take(n) =~= parts[0]);
        assert(s.skip(n + 1) =~= joined(rest, "\n"@));
        assert(seq![parts[0]] + rest =~= parts);
    }
}

/// No line that is read from a text holds a newline.
pub proof fn lemma_lines_hold_no_newline(s: Seq<char>)
    ensures
        forall|i: int, k: int|
            0 <= i < lines_of(s).len() && 0 <= k < lines_of(s)[i].len() ==> #[trigger] lines_of(
                s,
            )[i][k] != '\n',
    decreases s.len(),
{
    if s.len() > 0 {
        lemma_newline_at(s);
        let n = newline_at(s);
        if n < s.len() {
            let rest = s.skip(n + 1);
            lemma_lines_hold_no_newline(rest);
            let all = lines_of(s);
            assert forall|i: int, k: int|
                0 <= i < all.len() && 0 <= k < all[i].len() implies #[trigger] all[i][k]
                != '\n' by {
                if i == 0 {
                    assert(all[0][k] == s[k]);
                } else {
                    assert(all[i] == lines_of(rest)[i - 1]);
                }
            }
        }
    }
}

// ─── Trimming ───

/// The characters with the Unicode property White_Space.
pub open spec fn is_space(c: char) -> bool {
    ||| '\u{9}' <= c <= '\u{d}'
    ||| c == ' '
    ||| c == '\u{85}'
    ||| c == '\u{a0}'
    ||| c == '\u{1680}'
    ||| '\u{2000}' <= c <= '\u{200a}'
    ||| c == '\u{2028}'
    ||| c == '\u{2029}'
    ||| c == '\u{202f}'
    ||| c == '\u{205f}'
    ||| c == '\u{3000}'
}

/// A set of characters that can be trimmed from the ends of a text.
#[derive(Clone, Copy)]
pub enum TrimSet {
    Whitespace,
    /// `"`, `<` and `>`: what surrounds the path of an include directive.
    Quotes,
}

pub open spec fn in_trim_set(set: TrimSet, c: char) -> bool {
    match set {
        TrimSet::Whitespace => is_space(c),
        TrimSet::Quotes => c == '"' || c == '<' || c == '>',
    }
}

pub open spec fn trimmed_start(s: Seq<char>, set: TrimSet) -> Seq<char>
    decreases s.len(),
{
    if s.len() > 0 && in_trim_set(set, s[0]) {
        trimmed_start(s.drop_first(), set)
    } else {
        s
    }
}

pub open spec fn trimmed_end(s: Seq<char>, set: TrimSet) -> Seq<char>
    decreases s.len(),
{
    if s.len() > 0 && in_trim_set(set, s.last()) {
        trimmed_end(s.drop_last(), set)
    } else {
        s
    }
}

/// The text without the characters of the set at either end.
pub open spec fn trimmed(s: Seq<char>, set: TrimSet) -> Seq<char> {
    trimmed_end(trimmed_start(s, set), set)
}

pub fn has_trim_char(set: TrimSet, c: char) -> (r: bool)
    ensures
        r == in_trim_set(set, c),
{
    match set {
        TrimSet::Whitespace => ('\u{9}' <= c && c <= '\u{d}') || c == ' ' || c == '\u{85}' || c
            == '\u{a0}' || c == '\u{1680}' || ('\u{2000}' <= c && c <= '\u{200a}') || c
            == '\u{2028}' || c == '\u{2029}' || c == '\u{202f}' || c == '\u{205f}' || c
            == '\u{3000}',
        TrimSet::Quotes => c == '"' || c == '<' || c == '>',
    }
}

pub fn trim(s: &str, set: TrimSet) -> (r: String)
    ensures
        r@ == trimmed(s@, set),
{
    let cs = chars_of(s);
    let mut from: usize = 0;
    assert(cs@.skip(0) =~= cs@);
    while from < cs.len() && has_trim_char(set, cs[from])
        invariant
            from <= cs@.len(),
            trimmed_start(cs@, set) == trimmed_start(cs@.skip(from as int), set),
        decreases cs@.len() - from,
    {
        assert(cs@.skip(from as int).drop_first() =~= cs@.skip(from + 1));
        from = from + 1;
    }
    let mut to: usize = cs.len();
    assert(trimmed_start(cs@, set) == cs@.skip(from as int));
    assert(cs@.subrange(from as int, to as int) =~= cs@.skip(from as int));
    while to > from && has_trim_char(set, cs[to - 1])
        invariant
            from <= to <= cs@.len(),
            trimmed(cs@, set) == trimmed_end(cs@.subrange(from as int, to as int), set),
        decreases to - from,
    {
        assert(cs@.subrange(from as int, to as int).drop_last() =~= cs@.subrange(
            from as int,
            to - 1,
        ));
        to = to - 1;
    }
    string_of(&cs, from, to)
}

// ─── Numbers ───

pub open spec fn digit(d: nat) -> char {
    (('0' as int) + d % 10) as char
}

/// The decimal notation of a number.
pub open spec fn decimal_of(n: nat) -> Seq<char>
    decreases n,
{
    if n < 10 {
        seq![digit(n)]
    } else {
        decimal_of(n / 10).push(digit(n % 10))
    }
}

/// The decimal notation is made of digits alone.
pub proof fn lemma_decimal_digits(n: nat)
    ensures
        decimal_of(n).len() > 0,
        forall|i: int| 0 <= i < decimal_of(n).len() ==> '0' <= #[trigger] decimal_of(n)[i] <= '9',
    decreases n,
{
    if n >= 10 {
        lemma_decimal_digits(n / 10);
    }
}

fn digit_char(d: u64) -> (c: char)
    requires
        d < 10,
    ensures
        c == digit(d as nat),
{
    (48u8 + (d as u8)) as char
}

pub fn decimal(n: u64) -> (r: String)
    ensures
        r@ == decimal_of(n as nat),
    decreases n,
{
    if n < 10 {
        let mut out = String::new();
        out.push(digit_char(n));
        assert(out@ =~= seq![digit(n as nat)]);
        out
    } else {
        let mut out = decimal(n / 10);
        out.push(digit_char(n % 10));
        out
    }
}

/// The position of the last occurrence of a character, or -1.
pub open spec fn last_at(s: Seq<char>, c: char) -> int
    decreases s.len(),
{
    if s.len() == 0 {
        -1
    } else if s.last() == c {
        s.len() - 1
    } else {
        last_at(s.drop_last(), c)
    }
}

/// The position of the last occurrence of a character.
pub fn rfind(s: &Vec<char>, c: char) -> (r: Option<usize>)
    ensures
        match r {
            Some(i) => last_at(s@, c) == i && i < s@.len(),
            None => last_at(s@, c) == -1,
        },
{
    let mut i: usize = s.len();
    assert(s@.take(i as int) =~= s@);
    while i > 0
        invariant
            i <= s@.len(),
            last_at(s@, c) == last_at(s@.take(i as int), c),
        decreases i,
    {
        assert(s@.take(i as int).drop_last() =~= s@.take(i - 1));
        if s[i - 1] == c {
            return Some(i - 1);
        }
        i = i - 1;
    }
    None
}

// ─── The laws ───

/// What may follow a line in a text: a newline, or a carriage return and a newline
/// where the line would otherwise keep the return; nothing after the last one.
pub open spec fn is_line_end(line: Seq<char>, end: Seq<char>, is_last: bool) -> bool {
    ||| end == seq!['\n'] && !(line.len() > 0 && line.last() == '\r')
    ||| end == seq!['\r', '\n']
    ||| is_last && end.len() == 0 && line.len() > 0
}

/// The text is the given lines, each followed by its line ending.
pub open spec fn is_made_of(s: Seq<char>, lines: Seq<Seq<char>>, ends: Seq<Seq<char>>) -> bool {
    &&& ends.len() == lines.len()
    &&& forall|i: int|
        0 <= i < ends.len() ==> is_line_end(lines[i], #[trigger] ends[i], i == ends.len() - 1)
    &&& Seq::new(ends.len(), |i: int| lines[i] + ends[i]).flatten() == s
}

/// A text is its lines, each followed by its line ending: nothing is lost, added
/// or moved, and no line holds a newline.
pub proof fn law_text_is_its_lines(s: Seq<char>)
    ensures
        exists|ends: Seq<Seq<char>>| #[trigger] is_made_of(s, lines_of(s), ends),
        forall|i: int, k: int|
            0 <= i < lines_of(s).len() && 0 <= k < lines_of(s)[i].len() ==> #[trigger] lines_of(
                s,
            )[i][k] != '\n',
    decreases s.len(),
{
    lemma_lines_hold_no_newline(s);
    let all = lines_of(s);
    if s.len() == 0 {
        let ends = Seq::<Seq<char>>::empty();
        assert(Seq::new(ends.len(), |i: int| all[i] + ends[i]).flatten() =~= s);
        assert(is_made_of(s, all, ends));
    } else {
        lemma_newline_at(s);
        let n = newline_at(s);
        if n >= s.len() {
            let ends = seq![Seq::<char>::empty()];
            let parts = Seq::new(ends.len(), |i: int| all[i] + ends[i]);
            assert(parts.drop_first() =~= Seq::empty());
            assert(parts.drop_first().flatten() =~= Seq::empty());
            assert(parts.first() =~= s);
            assert(parts.flatten() =~= s);
            assert(is_made_of(s, all, ends));
        } else {
            let rest = s.skip(n + 1);
            law_text_is_its_lines(rest);
            let later = choose|ends: Seq<Seq<char>>| #[trigger]
                is_made_of(rest, lines_of(rest), ends);
            let line = without_cr(s.take(n));
            let end = if n > 0 && s[n - 1] == '\r' {
                seq!['\r', '\n']
            } else {
                seq!['\n']
            };
            let ends = seq![end] + later;
            let parts = Seq::new(ends.len(), |i: int| all[i] + ends[i]);
            assert(all =~= seq![line] + lines_of(rest));
            assert(line + end =~= s.take(n + 1));
            assert(parts.drop_first() =~= Seq::new(
                later.len(),
                |i: int| lines_of(rest)[i] + later[i],
            ));
            assert(parts.flatten() =~= s);
            assert forall|i: int| 0 <= i < ends.len() implies is_line_end(
                all[i],
                #[trigger] ends[i],
                i == ends.len() - 1,
            ) by {
                if i == 0 {
                    assert(all[0] == line && ends[0] == end);
                } else {
                    assert(ends[i] == later[i - 1] && all[i] == lines_of(rest)[i - 1]);
                }
            }
            assert(is_made_of(s, all, ends));
        }
    }
}

/// Joining is putting together: a single part stands alone, and two lists are
/// joined with one separator between them.
pub proof fn law_joined_is_put_together(a: Seq<Seq<char>>, b: Seq<Seq<char>>, sep: Seq<char>)
    ensures
        joined(Seq::empty(), sep) == Seq::<char>::empty(),
        a.len() == 1 ==> joined(a, sep) == a[0],
        a.len() > 0 && b.len() > 0 ==> joined(a + b, sep) == joined(a, sep) + sep + joined(b, sep),
    decreases b.len(),
{
    if a.len() > 0 && b.len() > 0 {
        assert((a + b).drop_last() =~= a + b.drop_last());
        assert((a + b).last() == b.last());
        if b.len() == 1 {
            assert(a + b.drop_last() =~= a);
            assert(joined(a + b, sep) == joined(a, sep) + sep + b[0]);
        } else {
            law_joined_is_put_together(a, b.drop_last(), sep);
            assert(joined(a + b, sep) =~= joined(a, sep) + sep + joined(b, sep));
        }
    }
}

/// The number that digits stand for.
pub open spec fn value_of(digits: Seq<char>) -> int
    decreases digits.len(),
{
    if digits.len() == 0 {
        0
    } else {
        value_of(digits.drop_last()) * 10 + (digits.last() as int - '0' as int)
    }
}

/// A number is read back from its decimal notation, which holds nothing but
/// digits and does not begin with a needless zero.
pub proof fn law_decimal_is_read_back(n: nat)
    ensures
        value_of(decimal_of(n)) == n,
        decimal_of(n).len() > 0,
        decimal_of(n).len() > 1 ==> decimal_of(n)[0] != '0',
        forall|i: int| 0 <= i < decimal_of(n).len() ==> '0' <= #[trigger] decimal_of(n)[i] <= '9',
    decreases n,
{
    lemma_decimal_digits(n);
    if n < 10 {
        assert(value_of(decimal_of(n).drop_last()) == 0);
        assert(decimal_of(n).last() == digit(n));
    } else {
        law_decimal_is_read_back(n / 10);
        let front = decimal_of(n / 10);
        assert(decimal_of(n).drop_last() =~= front);
        assert(decimal_of(n).last() == digit(n % 10));
        assert(decimal_of(n)[0] == front[0]);
        if front.len() == 1 {
            assert(value_of(front.drop_last()) == 0);
            assert(front.last() == front[0]);
            assert(value_of(front) == front[0] as int - '0' as int);
        }
    }
}

/// Trimming takes characters of the set off both ends, all of them and no others:
/// what remains is one stretch of the text.
pub proof fn law_trimming_takes_the_ends(s: Seq<char>, set: TrimSet)
    ensures
        exists|a: int, b: int|
            {
                &&& 0 <= a <= b <= s.len()
                &&& trimmed(s, set) == #[trigger] s.subrange(a, b)
                &&& forall|i: int| 0 <= i < a || b <= i < s.len() ==> in_trim_set(
                    set,
                    #[trigger] s[i],
                )
                &&& a < b ==> !in_trim_set(set, s[a]) && !in_trim_set(set, s[b - 1])
            },
{
    let a = lemma_trimmed_start(s, set);
    let rest = s.skip(a);
    let n = lemma_trimmed_end(rest, set);
    let b = a + n;
    assert(rest.take(n) =~= s.subrange(a, b));
    assert forall|i: int| 0 <= i < a || b <= i < s.len() implies in_trim_set(
        set,
        #[trigger] s[i],
    ) by {
        if i >= b {
            assert(rest[i - a] == s[i]);
        }
    }
    if a < b {
        assert(rest[n - 1] == s[b - 1]);
        assert(rest[0] == s[a]);
    }
    assert(trimmed(s, set) == s.subrange(a, b));
}

proof fn lemma_trimmed_start(s: Seq<char>, set: TrimSet) -> (a: int)
    ensures
        0 <= a <= s.len(),
        trimmed_start(s, set) == s.skip(a),
        forall|i: int| 0 <= i < a ==> in_trim_set(set, #[trigger] s[i]),
        a < s.len() ==> !in_trim_set(set, s[a]),
    decreases s.len(),
{
    if s.len() > 0 && in_trim_set(set, s[0]) {
        let t = s.drop_first();
        let b = lemma_trimmed_start(t, set);
        assert(t.skip(b) =~= s.skip(b + 1));
        assert forall|i: int| 0 <= i < b + 1 implies in_trim_set(set, #[trigger] s[i]) by {
            if i > 0 {
                assert(t[i - 1] == s[i]);
            }
        }
        if b < t.len() {
            assert(t[b] == s[b + 1]);
        }
        b + 1
    } else {
        assert(s.skip(0) =~= s);
        0
    }
}

proof fn lemma_trimmed_end(s: Seq<char>, set: TrimSet) -> (n: int)
    ensures
        0 <= n <= s.len(),
        trimmed_end(s, set) == s.take(n),
        forall|i: int| n <= i < s.len() ==> in_trim_set(set, #[trigger] s[i]),
        n > 0 ==> !in_trim_set(set, s[n - 1]),
    decreases s.len(),
{
    if s.len() > 0 && in_trim_set(set, s.last()) {
        let t = s.drop_last();
        let m = lemma_trimmed_end(t, set);
        assert(t.take(m) =~= s.take(m));
        assert forall|i: int| m <= i < s.len() implies in_trim_set(set, #[trigger] s[i]) by {
            if i < t.len() {
                assert(t[i] == s[i]);
            }
        }
        m
    } else {
        assert(s.take(s.len() as int) =~= s);
        s.len() as int
    }
}

/// The last occurrence of a character is one, and none comes after it.
pub proof fn law_last_at_is_last(s: Seq<char>, c: char)
    ensures
        -1 <= last_at(s, c) < s.len(),
        last_at(s, c) >= 0 ==> s[last_at(s, c)] == c,
        forall|i: int| last_at(s, c) < i < s.len() ==> #[trigger] s[i] != c,
    decreases s.len(),
{
    if s.len() > 0 && s.last() != c {
        let t = s.drop_last();
        law_last_at_is_last(t, c);
        assert forall|i: int| last_at(s, c) < i < s.len() implies #[trigger] s[i] != c by {
            if i < t.len() {
                assert(t[i] == s[i]);
            }
        }
    }
}

/// Lines that hold no newline and do not end in a carriage return are read from
/// the text that joins them; the last of them must not be empty.
pub proof fn law_lines_with_blank_ones_of_joined(parts: Seq<Seq<char>>)
    requires
        forall|i: int, k: int|
            0 <= i < parts.len() && 0 <= k < parts[i].len() ==> #[trigger] parts[i][k] != '\n',
        forall|i: int|
            0 <= i < parts.len() && (#[trigger] parts[i]).len() > 0 ==> parts[i].last() != '\r',
        parts.len() > 0 ==> parts.last().len() > 0,
    ensures
        lines_of(joined(parts, "\n"@)) == parts,
    decreases parts.len(),
{
    reveal_strlit("\n");
    let s = joined(parts, "\n"@);
    if parts.len() == 0 {
        assert(lines_of(s) =~= parts);
    } else if parts.len() == 1 {
        assert forall|k: int| 0 <= k < s.len() implies s[k] != '\n' by {
            assert(parts[0][k] != '\n');
        }
        lemma_newline_at_is(s, s.len() as int);
        assert(lines_of(s) =~= parts);
    } else {
        let rest = parts.drop_first();
        let n = parts[0].len() as int;
        assert forall|i: int, k: int|
            0 <= i < rest.len() && 0 <= k < rest[i].len() implies #[trigger] rest[i][k] != '\n' by {
            assert(parts[i + 1][k] != '\n');
        }
        assert forall|i: int| 0 <= i < rest.len() && (#[trigger] rest[i]).len() > 0 implies
            rest[i].last() != '\r' by {
            assert(rest[i] == parts[i + 1]);
        }
        assert(rest.last() == parts.last());
        lemma_joined_front(parts, "\n"@);
        law_lines_with_blank_ones_of_joined(rest);
        assert(s[n] == '\n');
        assert forall|k: int| 0 <= k < n implies s[k] != '\n' by {
            assert(s[k] == parts[0][k]);
        }
        lemma_newline_at_is(s, n);
        assert(s.take(n) =~= parts[0]);
        assert(s.skip(n + 1) =~= joined(rest, "\n"@));
        assert(without_cr(parts[0]) == parts[0]);
        assert(seq![parts[0]] + rest =~= parts);
    }
}

/// The part stands somewhere in the text, in one piece.
pub open spec fn shows(text: Seq<char>, part: Seq<char>) -> bool {
    exists|a: int|
        0 <= a && a + part.len() <= text.len() && #[trigger] text.subrange(a, a + part.len())
            == part
}

pub proof fn lemma_shows(before: Seq<char>, part: Seq<char>, after: Seq<char>)
    ensures
        shows(before + part + after, part),
{
    let text = before + part + after;
    let a = before.len() as int;
    assert(text.subrange(a, a + part.len()) =~= part);
}

/// What a part shows, the whole shows.
pub proof fn lemma_shows_trans(text: Seq<char>, part: Seq<char>, inner: Seq<char>)
    requires
        shows(text, part),
        shows(part, inner),
    ensures
        shows(text, inner),
{
    let a = choose|a: int|
        0 <= a && a + part.len() <= text.len() && #[trigger] text.subrange(a, a + part.len())
            == part;
    let b = choose|b: int|
        0 <= b && b + inner.len() <= part.len() && #[trigger] part.subrange(b, b + inner.len())
            == inner;
    assert(text.subrange(a + b, a + b + inner.len()) =~= inner) by {
        assert forall|i: int| 0 <= i < inner.len() implies text[a + b + i] == inner[i] by {
            assert(part[b + i] == text.subrange(a, a + part.len())[b + i]);
            assert(inner[i] == part.subrange(b, b + inner.len())[i]);
        }
    }
}

/// Every part of a join is shown.
pub proof fn lemma_joined_shows(parts: Seq<Seq<char>>, sep: Seq<char>, i: int)
    requires
        0 <= i < parts.len(),
    ensures
        shows(joined(parts, sep), parts[i]),
{
    let none = Seq::<char>::empty();
    let text = joined(parts, sep);
    let (a, b) = (parts.take(i), parts.skip(i + 1));
    let one = seq![parts[i]];
    assert(parts =~= a + (one + b));
    law_joined_is_put_together(one, b, sep);
    law_joined_is_put_together(a, one + b, sep);
    let head = if a.len() > 0 {
        joined(a, sep) + sep
    } else {
        none
    };
    let tail = if b.len() > 0 {
        sep + joined(b, sep)
    } else {
        none
    };
    if b.len() == 0 {
        assert(one + b =~= one);
    }
    if a.len() == 0 {
        assert(a + (one + b) =~= one + b);
    }
    assert(text =~= head + parts[i] + tail);
    lemma_shows(head, parts[i], tail);
}

/// What surrounds the path of an include is taken off, and only that: the path
/// comes out of quotes and of angle brackets as it is.
pub proof fn law_include_paths_come_out_of_quotes(path: Seq<char>)
    requires
        path.len() > 0,
        forall|i: int|
            0 <= i < path.len() ==> #[trigger] path[i] != '"' && path[i] != '<' && path[i] != '>',
    ensures
        trimmed(seq!['"'] + path + seq!['"'], TrimSet::Quotes) == path,
        trimmed(seq!['<'] + path + seq!['>'], TrimSet::Quotes) == path,
        trimmed(path, TrimSet::Quotes) == path,
{
    lemma_out_of(path, '"', '"');
    lemma_out_of(path, '<', '>');
    assert(path[0] != '"');
    assert(path.last() == path[path.len() - 1]);
}

proof fn lemma_out_of(path: Seq<char>, a: char, b: char)
    requires
        path.len() > 0,
        in_trim_set(TrimSet::Quotes, a),
        in_trim_set(TrimSet::Quotes, b),
        !in_trim_set(TrimSet::Quotes, path[0]),
        !in_trim_set(TrimSet::Quotes, path[path.len() - 1]),
    ensures
        trimmed(seq![a] + path + seq![b], TrimSet::Quotes) == path,
{
    let all = seq![a] + path + seq![b];
    let rest = path + seq![b];
    assert(all.drop_first() =~= rest);
    assert(rest[0] == path[0]);
    assert(trimmed_start(rest, TrimSet::Quotes) == rest);
    assert(trimmed_start(all, TrimSet::Quotes) == rest);
    assert(rest.drop_last() =~= path);
    assert(rest.last() == b);
    assert(path.last() == path[path.len() - 1]);
    assert(trimmed_end(path, TrimSet::Quotes) == path);
}

/// The blanks, the ends of lines and pages, and what else separates words, in and
/// outside of ASCII, is whitespace; nothing else is.
pub proof fn law_whitespace(c: char)
    ensures
        is_space(c) <==> (c == '\t' || c == '\n' || c == '\u{b}' || c == '\u{c}' || c == '\r' || c
            == ' ' || c == '\u{85}' || c == '\u{a0}' || c == '\u{1680}' || (0x2000 <= c as u32
            <= 0x200a) || c == '\u{2028}' || c == '\u{2029}' || c == '\u{202f}' || c
            == '\u{205f}' || c == '\u{3000}'),
{
}

}

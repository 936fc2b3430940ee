//! Small text helpers shared by the parsers and formatters.

use vstd::prelude::*;

verus! {

/// Appends one character to a string.
///
/// Trusted: wraps `String::push`, whose documentation says it appends the
/// given `char` to the end of the string; the contract states exactly that
/// of the string's characters.
#[verifier::external_body]
pub(crate) fn push_char(s: &mut String, c: char)
    ensures
        final(s)@ == old(s)@.push(c),
{
    s.push(c);
}

/// The characters that a lenient UTF-8 decoding yields for `bytes`: the
/// decoded text where the bytes are valid, a replacement character for each
/// invalid sequence.
pub uninterp spec fn utf8_lossy_chars(bytes: Seq<u8>) -> Seq<char>;

/// Decodes bytes as UTF-8, replacing invalid sequences.
///
/// Trusted: wraps `String::from_utf8_lossy` (then `into_owned`). The result
/// is named by `utf8_lossy_chars` of the bytes; for valid UTF-8 the
/// documentation says the text is returned unchanged, which the second
/// clause states. How invalid sequences are replaced is left unsaid.
#[verifier::external_body]
pub(crate) fn lossy_utf8(bytes: Vec<u8>) -> (res: String)
    ensures
        res@ == utf8_lossy_chars(bytes@),
        vstd::utf8::valid_utf8(bytes@) ==> res@ == vstd::utf8::decode_utf8(bytes@),
{
    String::from_utf8_lossy(&bytes).into_owned()
}

/// The characters of a string slice, in order.
pub fn chars_of(s: &str) -> (res: Vec<char>)
    ensures
        res@ == s@,
{
    broadcast use vstd::string::group_string_axioms;

    let mut out: Vec<char> = Vec::new();
    for c in it: s.chars()
        invariant
            out@ == it.seq().take(it.index() as int),
            it.seq() == s@,
    {
        out.push(c);
    }
    out
}

/// The characters of a vector of character vectors.
pub open spec fn views(v: Seq<Vec<char>>) -> Seq<Seq<char>> {
    v.map_values(|x: Vec<char>| x@)
}

/// The pieces of `s` between occurrences of `sep`, in order; there is one
/// more piece than there are separators.
pub open spec fn split_chars(s: Seq<char>, sep: char) -> Seq<Seq<char>>
    decreases s.len(),
{
    if s.len() == 0 {
        seq![Seq::<char>::empty()]
    } else {
        let rest = split_chars(s.drop_last(), sep);
        if s.last() == sep {
            rest.push(Seq::<char>::empty())
        } else {
            rest.update(rest.len() - 1, rest.last().push(s.last()))
        }
    }
}

/// Splitting always yields at least one piece.
pub proof fn lemma_split_chars_nonempty(s: Seq<char>, sep: char)
    ensures
        split_chars(s, sep).len() >= 1,
    decreases s.len(),
{
    if s.len() > 0 {
        lemma_split_chars_nonempty(s.drop_last(), sep);
    }
}

/// Text without the separator is a single piece.
pub proof fn lemma_split_chars_no_sep(s: Seq<char>, sep: char)
    requires
        !s.contains(sep),
    ensures
        split_chars(s, sep) == seq![s],
    decreases s.len(),
{
    if s.len() > 0 {
        assert(s[s.len() - 1] == s.last());
        assert(!s.drop_last().contains(sep)) by {
            if s.drop_last().contains(sep) {
                let k = choose|k: int| 0 <= k < s.drop_last().len() && s.drop_last()[k] == sep;
                assert(s[k] == sep);
            }
        }
        lemma_split_chars_no_sep(s.drop_last(), sep);
        assert(s.drop_last().push(s.last()) =~= s);
        assert(split_chars(s, sep) =~= seq![s]);
    } else {
        assert(s =~= Seq::<char>::empty());
    }
}

/// Splitting at a separator between two texts splits each of them.
pub proof fn lemma_split_chars_concat(s: Seq<char>, t: Seq<char>, sep: char)
    ensures
        split_chars(s + seq![sep] + t, sep) == split_chars(s, sep) + split_chars(t, sep),
    decreases t.len(),
{
    let whole = s + seq![sep] + t;
    if t.len() == 0 {
        assert(whole.drop_last() =~= s);
        assert(whole.last() == sep);
        assert(split_chars(t, sep) =~= seq![Seq::<char>::empty()]);
        assert(split_chars(s, sep).push(Seq::<char>::empty()) =~= split_chars(s, sep) + split_chars(t, sep));
    } else {
        let t1 = t.drop_last();
        lemma_split_chars_concat(s, t1, sep);
        lemma_split_chars_nonempty(t1, sep);
        assert(whole.drop_last() =~= s + seq![sep] + t1);
        assert(whole.last() == t.last());
        let a = split_chars(s, sep);
        let b = split_chars(t1, sep);
        if t.last() == sep {
            assert((a + b).push(Seq::<char>::empty()) =~= a + b.push(Seq::<char>::empty()));
        } else {
            let r = a + b;
            assert(r.last() == b.last());
            assert(r.update(r.len() - 1, r.last().push(t.last())) =~= a + b.update(
                b.len() - 1,
                b.last().push(t.last()),
            ));
        }
    }
}

/// The pieces joined back together with `sep` between them.
pub open spec fn join_chars(parts: Seq<Seq<char>>, sep: char) -> Seq<char>
    decreases parts.len(),
{
    if parts.len() == 0 {
        Seq::empty()
    } else if parts.len() == 1 {
        parts[0]
    } else {
        join_chars(parts.drop_last(), sep).push(sep) + parts.last()
    }
}

/// Splitting cuts at every separator and nowhere else: joining the pieces
/// with the separator gives the text back, and no piece holds a separator.
pub proof fn lemma_split_chars_joins_back(s: Seq<char>, sep: char)
    ensures
        join_chars(split_chars(s, sep), sep) == s,
        forall|i: int| 0 <= i < split_chars(s, sep).len() ==> !(#[trigger] split_chars(s, sep)[i]).contains(sep),
    decreases s.len(),
{
    if s.len() == 0 {
        assert(split_chars(s, sep)[0] =~= Seq::<char>::empty());
        assert(s =~= Seq::<char>::empty());
    } else {
        let rest = split_chars(s.drop_last(), sep);
        lemma_split_chars_joins_back(s.drop_last(), sep);
        lemma_split_chars_nonempty(s.drop_last(), sep);
        let parts = split_chars(s, sep);
        if s.last() == sep {
            assert(parts.drop_last() =~= rest);
            assert(parts.last() =~= Seq::<char>::empty());
            assert(join_chars(parts, sep) =~= s);
            assert forall|i: int| 0 <= i < parts.len() implies !(#[trigger] parts[i]).contains(sep) by {
                if i < rest.len() {
                    assert(parts[i] == rest[i]);
                }
            }
        } else {
            let last = rest.last().push(s.last());
            assert(parts.last() == last);
            assert forall|i: int| 0 <= i < parts.len() implies !(#[trigger] parts[i]).contains(sep) by {
                if i < rest.len() - 1 {
                    assert(parts[i] == rest[i]);
                } else {
                    assert(!rest[rest.len() - 1].contains(sep));
                    if last.contains(sep) {
                        let k = choose|k: int| 0 <= k < last.len() && last[k] == sep;
                        if k < last.len() - 1 {
                            assert(rest.last()[k] == sep);
                        }
                    }
                }
            }
            if rest.len() == 1 {
                assert(join_chars(rest, sep) == rest[0]);
                assert(join_chars(parts, sep) == last);
                assert(join_chars(parts, sep) =~= s);
            } else {
                assert(parts.drop_last() =~= rest.drop_last());
                assert(join_chars(rest, sep) == join_chars(rest.drop_last(), sep).push(sep) + rest.last());
                assert(join_chars(parts, sep) == join_chars(rest.drop_last(), sep).push(sep) + last);
                let a = join_chars(rest.drop_last(), sep).push(sep);
                assert(a + rest.last().push(s.last()) =~= (a + rest.last()).push(s.last()));
                assert(s =~= s.drop_last().push(s.last()));
                assert(join_chars(parts, sep) =~= s);
            }
        }
    }
}

/// Splits characters at every `sep`.
pub fn split_on(cs: &[char], sep: char) -> (res: Vec<Vec<char>>)
    ensures
        views(res@) == split_chars(cs@, sep),
{
    let mut parts: Vec<Vec<char>> = Vec::new();
    let mut current: Vec<char> = Vec::new();
    let mut i: usize = 0;
    assert(cs@.subrange(0, 0) =~= Seq::<char>::empty());
    assert(views(parts@).push(current@) =~= split_chars(cs@.subrange(0, 0), sep));
    while i < cs.len()
        invariant
            i <= cs@.len(),
            views(parts@).push(current@) == split_chars(cs@.subrange(0, i as int), sep),
        decreases cs@.len() - i,
    {
        let c = cs[i];
        let ghost pre = cs@.subrange(0, i as int);
        let ghost post = cs@.subrange(0, i + 1);
        assert(post.drop_last() =~= pre);
        assert(post.last() == c);
        proof { lemma_split_chars_nonempty(pre, sep); }
        if c == sep {
            let done = current;
            parts.push(done);
            current = Vec::new();
            assert(views(parts@).push(current@) =~= split_chars(post, sep));
        } else {
            let ghost old_parts = parts@;
            current.push(c);
            assert(views(parts@) =~= views(old_parts));
            assert(views(parts@).push(current@) =~= split_chars(post, sep));
        }
        i = i + 1;
    }
    assert(cs@.subrange(0, i as int) =~= cs@);
    parts.push(current);
    assert(views(parts@) =~= split_chars(cs@, sep));
    parts
}

/// A string holding exactly the given characters.
pub fn string_from_chars(cs: &[char]) -> (res: String)
    ensures
        res@ == cs@,
{
    let mut s = String::new();
    let mut i: usize = 0;
    while i < cs.len()
        invariant
            i <= cs@.len(),
            s@ == cs@.subrange(0, i as int),
        decreases cs@.len() - i,
    {
        push_char(&mut s, cs[i]);
        i = i + 1;
        assert(s@ =~= cs@.subrange(0, i as int));
    }
    assert(cs@.subrange(0, i as int) =~= cs@);
    s
}

/// Whether `cs` begins with `prefix`.
pub fn has_prefix(cs: &[char], prefix: &[char]) -> (res: bool)
    ensures
        res == prefix@.is_prefix_of(cs@),
{
    if prefix.len() > cs.len() {
        return false;
    }
    let mut i: usize = 0;
    while i < prefix.len()
        invariant
            prefix@.len() <= cs@.len(),
            i <= prefix@.len(),
            forall|j: int| 0 <= j < i ==> prefix@[j] == cs@[j],
        decreases prefix@.len() - i,
    {
        if prefix[i] != cs[i] {
            return false;
        }
        i = i + 1;
    }
    true
}

/// Whether `cs` ends with `suffix`.
pub fn has_suffix(cs: &[char], suffix: &[char]) -> (res: bool)
    ensures
        res == (suffix@.len() <= cs@.len() && cs@.subrange(cs@.len() - suffix@.len(), cs@.len() as int)
            == suffix@),
{
    if suffix.len() > cs.len() {
        return false;
    }
    let n = cs.len();
    let off = n - suffix.len();
    let mut i: usize = 0;
    while i < suffix.len()
        invariant
            n == cs@.len(),
            off + suffix@.len() == cs@.len(),
            i <= suffix@.len(),
            forall|j: int| 0 <= j < i ==> suffix@[j] == cs@[off + j],
        decreases suffix@.len() - i,
    {
        if suffix[i] != cs[off + i] {
            assert(cs@.subrange(off as int, cs@.len() as int)[i as int] != suffix@[i as int]);
            return false;
        }
        i = i + 1;
    }
    assert(cs@.subrange(off as int, cs@.len() as int) =~= suffix@);
    true
}

/// Whether two character sequences are equal.
pub fn chars_eq(a: &[char], b: &[char]) -> (res: bool)
    ensures
        res == (a@ == b@),
{
    if a.len() != b.len() {
        return false;
    }
    let r = has_prefix(a, b);
    proof {
        if r {
            assert(a@ =~= b@);
        }
    }
    r
}

/// The index of the first `c` in `cs` at or after `i`, if any.
pub open spec fn first_index_from(cs: Seq<char>, c: char, i: int) -> Option<int>
    decreases cs.len() - i,
{
    if i < 0 || i >= cs.len() {
        None
    } else if cs[i] == c {
        Some(i)
    } else {
        first_index_from(cs, c, i + 1)
    }
}

/// The index of the first `c` in `cs`, if any.
pub open spec fn first_index_of(cs: Seq<char>, c: char) -> Option<int> {
    first_index_from(cs, c, 0)
}

/// Finds the first occurrence of `c`.
pub fn find_char(cs: &[char], c: char) -> (res: Option<usize>)
    ensures
        match res {
            Some(i) => first_index_of(cs@, c) == Some(i as int) && i < cs@.len() && cs@[i as int] == c,
            None => first_index_of(cs@, c) is None,
        },
{
    let mut i: usize = 0;
    while i < cs.len()
        invariant
            i <= cs@.len(),
            first_index_of(cs@, c) == first_index_from(cs@, c, i as int),
        decreases cs@.len() - i,
    {
        if cs[i] == c {
            return Some(i);
        }
        i = i + 1;
    }
    None
}

/// Whether a character has the Unicode `White_Space` property.
pub open spec fn is_whitespace_char(c: char) -> bool {
    ||| '\u{9}' <= c <= '\u{d}'
    ||| c == ' '
    ||| c == '\u{85}'
    ||| c == '\u{a0}'
    ||| c == '\u{1680}'
    ||| '\u{2000}' <= c <= '\u{200a}'
    ||| c == '\u{2028}'
    ||| c == '\u{2029}'
    ||| c == '\u{202f}'
    ||| c == '\u{205f}'
    ||| c == '\u{3000}'
}

fn whitespace(c: char) -> (res: bool)
    ensures
        res == is_whitespace_char(c),
{
    ('\u{9}' <= c && c <= '\u{d}') || c == ' ' || c == '\u{85}' || c == '\u{a0}' || c == '\u{1680}'
        || ('\u{2000}' <= c && c <= '\u{200a}') || c == '\u{2028}' || c == '\u{2029}' || c == '\u{202f}'
        || c == '\u{205f}' || c == '\u{3000}'
}

/// The characters after any leading whitespace.
pub open spec fn trim_start_chars(s: Seq<char>) -> Seq<char>
    decreases s.len(),
{
    if s.len() > 0 && is_whitespace_char(s[0]) {
        trim_start_chars(s.drop_first())
    } else {
        s
    }
}

/// The characters before any trailing whitespace.
pub open spec fn trim_end_chars(s: Seq<char>) -> Seq<char>
    decreases s.len(),
{
    if s.len() > 0 && is_whitespace_char(s.last()) {
        trim_end_chars(s.drop_last())
    } else {
        s
    }
}

/// The characters without leading and trailing whitespace.
pub open spec fn trim_chars(s: Seq<char>) -> Seq<char> {
    trim_end_chars(trim_start_chars(s))
}

/// The index of the first non-whitespace character (or the length).
pub fn trim_start_index(cs: &[char]) -> (res: usize)
    ensures
        res <= cs@.len(),
        trim_start_chars(cs@) == cs@.subrange(res as int, cs@.len() as int),
{
    let mut i: usize = 0;
    assert(cs@.subrange(0, cs@.len() as int) =~= cs@);
    while i < cs.len() && whitespace(cs[i])
        invariant
            i <= cs@.len(),
            trim_start_chars(cs@) == trim_start_chars(cs@.subrange(i as int, cs@.len() as int)),
        decreases cs@.len() - i,
    {
        assert(cs@.subrange(i as int, cs@.len() as int).drop_first() =~= cs@.subrange(i + 1, cs@.len() as int));
        i = i + 1;
    }
    i
}

/// The index just after the last non-whitespace character (or zero).
pub fn trim_end_index(cs: &[char]) -> (res: usize)
    ensures
        res <= cs@.len(),
        trim_end_chars(cs@) == cs@.subrange(0, res as int),
{
    let mut j: usize = cs.len();
    assert(cs@.subrange(0, cs@.len() as int) =~= cs@);
    while j > 0 && whitespace(cs[j - 1])
        invariant
            j <= cs@.len(),
            trim_end_chars(cs@) == trim_end_chars(cs@.subrange(0, j as int)),
        decreases j,
    {
        assert(cs@.subrange(0, j as int).drop_last() =~= cs@.subrange(0, j - 1));
        j = j - 1;
    }
    j
}

/// The decimal digit character for a value below 10.
pub open spec fn digit_char(d: nat) -> char {
    (0x30 + d) as char
}

/// The decimal representation of `n`, without leading zeros.
pub open spec fn decimal_chars(n: nat) -> Seq<char>
    decreases n,
{
    if n < 10 {
        seq![digit_char(n)]
    } else {
        decimal_chars(n / 10).push(digit_char(n % 10))
    }
}

/// The number that a run of decimal digit characters denotes.
pub open spec fn decimal_value(ds: Seq<char>) -> int
    decreases ds.len(),
{
    if ds.len() == 0 {
        0
    } else {
        10 * decimal_value(ds.drop_last()) + (ds.last() as int - '0' as int)
    }
}

/// The decimal representation of `n` is a non-empty run of the characters
/// `0`-`9` that denotes `n`, with no leading zero except for `0` itself.
pub proof fn lemma_decimal_chars_denote(n: nat)
    ensures
        decimal_chars(n).len() >= 1,
        forall|i: int| 0 <= i < decimal_chars(n).len() ==> '0' <= #[trigger] decimal_chars(n)[i] <= '9',
        decimal_value(decimal_chars(n)) == n,
        decimal_chars(n).len() > 1 ==> decimal_chars(n)[0] != '0',
    decreases n,
{
    if n < 10 {
        let d = decimal_chars(n);
        assert(digit_char(n) as int == 0x30 + n);
        assert(d.drop_last() =~= Seq::<char>::empty());
        assert(decimal_value(d.drop_last()) == 0);
        assert(d.last() == digit_char(n));
    } else {
        lemma_decimal_chars_denote(n / 10);
        let d = decimal_chars(n);
        let p = decimal_chars(n / 10);
        assert(d.drop_last() =~= p);
        assert(d.last() == digit_char(n % 10));
        assert(digit_char(n % 10) as int == 0x30 + n % 10);
        assert(n == 10 * (n / 10) + n % 10);
        assert(decimal_value(d) == 10 * decimal_value(p) + n % 10);
        assert forall|i: int| 0 <= i < d.len() implies '0' <= #[trigger] d[i] <= '9' by {
            if i < p.len() {
                assert(d[i] == p[i]);
            }
        }
        assert(d[0] == p[0]);
        if n / 10 < 10 {
            assert(p[0] == digit_char(n / 10));
            assert(digit_char(n / 10) as int == 0x30 + n / 10);
        } else {
            lemma_decimal_chars_denote(n / 100);
            assert(p.len() > 1);
        }
    }
}

/// The first-index search finds an occurrence with none before it, and
/// finds nothing only when there is no occurrence at all.
pub proof fn lemma_first_index_of(cs: Seq<char>, c: char, i: int)
    requires
        0 <= i,
    ensures
        match first_index_from(cs, c, i) {
            Some(k) => i <= k < cs.len() && cs[k] == c && forall|j: int| i <= j < k ==> cs[j] != c,
            None => forall|j: int| i <= j < cs.len() ==> cs[j] != c,
        },
    decreases cs.len() - i,
{
    if i < cs.len() && cs[i] != c {
        lemma_first_index_of(cs, c, i + 1);
    }
}

/// A `c` at `k` with none before it is the first `c`.
pub proof fn lemma_first_index_at(cs: Seq<char>, c: char, k: int)
    requires
        0 <= k < cs.len(),
        cs[k] == c,
        forall|j: int| 0 <= j < k ==> cs[j] != c,
    ensures
        first_index_of(cs, c) == Some(k),
{
    lemma_first_index_of(cs, c, 0);
}

/// Leading whitespace is dropped up to the first other character.
pub proof fn lemma_trim_start_skips(ws: Seq<char>, x: Seq<char>)
    requires
        forall|i: int| 0 <= i < ws.len() ==> is_whitespace_char(#[trigger] ws[i]),
        x.len() > 0,
        !is_whitespace_char(x[0]),
    ensures
        trim_start_chars(ws + x) == x,
    decreases ws.len(),
{
    if ws.len() == 0 {
        assert(ws + x =~= x);
    } else {
        assert((ws + x)[0] == ws[0]);
        assert((ws + x).drop_first() =~= ws.drop_first() + x);
        assert forall|i: int| 0 <= i < ws.drop_first().len() implies is_whitespace_char(
            #[trigger] ws.drop_first()[i],
        ) by {
            assert(ws.drop_first()[i] == ws[i + 1]);
        }
        lemma_trim_start_skips(ws.drop_first(), x);
    }
}

/// Trimming the end keeps everything up to the last non-whitespace
/// character.
pub proof fn lemma_trim_end_keeps(s: Seq<char>, j: int)
    requires
        0 <= j < s.len(),
        !is_whitespace_char(s[j]),
    ensures
        s.subrange(0, j + 1).is_prefix_of(trim_end_chars(s)),
    decreases s.len(),
{
    if is_whitespace_char(s.last()) {
        assert(j < s.len() - 1);
        assert(s.drop_last()[j] == s[j]);
        lemma_trim_end_keeps(s.drop_last(), j);
        assert(s.drop_last().subrange(0, j + 1) =~= s.subrange(0, j + 1));
    } else {
        assert(s.subrange(0, j + 1) =~= s.subrange(0, j + 1));
    }
}

/// Appends the decimal representation of `n`.
pub fn push_decimal(s: &mut String, n: u64)
    ensures
        final(s)@ == old(s)@ + decimal_chars(n as nat),
    decreases n,
{
    if n >= 10 {
        push_decimal(s, n / 10);
    }
    let d = (n % 10) as u8;
    push_char(s, (0x30 + d) as char);
    assert(final(s)@ =~= old(s)@ + decimal_chars(n as nat));
}

/// Lower-case mapping of a character sequence, as Unicode defines it.
pub uninterp spec fn lowercase_chars(s: Seq<char>) -> Seq<char>;

/// The lower-case form of a string.
///
/// Trusted: wraps `str::to_lowercase`, whose result is the Unicode
/// lower-case mapping of the string's characters and depends on them alone;
/// the contract names it `lowercase_chars` of the characters and says
/// nothing more about it.
#[verifier::external_body]
pub(crate) fn to_lowercase(s: &str) -> (res: String)
    ensures
        res@ == lowercase_chars(s@),
{
    s.to_lowercase()
}

} // verus!

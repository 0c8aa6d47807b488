//! Character-level helpers: ASCII case folding, Unicode whitespace trimming,
//! and the conversions between `&str`/`String` and `Vec<char>` that the rest
//! of the library works on.
use vstd::prelude::*;

verus! {

broadcast use vstd::string::group_string_axioms;

/// ASCII lower-casing of one character; every other character is unchanged.
pub open spec fn lower_char(c: char) -> char {
    if 'A' <= c && c <= 'Z' {
        ((c as u32) + 32) as char
    } else {
        c
    }
}

/// ASCII lower-casing of a whole sequence (`str::to_ascii_lowercase`).
pub open spec fn ascii_lower(s: Seq<char>) -> Seq<char> {
    Seq::new(s.len(), |i: int| lower_char(s[i]))
}

/// Two sequences are equal when ASCII case is ignored (`eq_ignore_ascii_case`).
pub open spec fn eq_ignore_case(a: Seq<char>, b: Seq<char>) -> bool {
    ascii_lower(a) == ascii_lower(b)
}

/// The Unicode `White_Space` property, which `char::is_whitespace` reports.
pub open spec fn is_white_space(c: char) -> bool {
    ||| ('\u{9}' <= c && c <= '\u{d}')
    ||| c == ' '
    ||| c == '\u{85}'
    ||| c == '\u{a0}'
    ||| c == '\u{1680}'
    ||| ('\u{2000}' <= c && c <= '\u{200a}')
    ||| c == '\u{2028}'
    ||| c == '\u{2029}'
    ||| c == '\u{202f}'
    ||| c == '\u{205f}'
    ||| c == '\u{3000}'
}

/// `s` with leading whitespace removed.
pub open spec fn trim_start(s: Seq<char>) -> Seq<char>
    decreases s.len(),
{
    if s.len() > 0 && is_white_space(s[0]) {
        trim_start(s.drop_first())
    } else {
        s
    }
}

/// `s` with trailing whitespace removed.
pub open spec fn trim_end(s: Seq<char>) -> Seq<char>
    decreases s.len(),
{
    if s.len() > 0 && is_white_space(s.last()) {
        trim_end(s.drop_last())
    } else {
        s
    }
}

/// `str::trim`: both leading and trailing whitespace removed.
pub open spec fn trim(s: Seq<char>) -> Seq<char> {
    trim_end(trim_start(s))
}

/// `needle` occurs as a contiguous run inside `hay`.
pub open spec fn contains_run(hay: Seq<char>, needle: Seq<char>) -> bool {
    exists|i: int| 0 <= i && i + needle.len() <= hay.len() && #[trigger] hay.subrange(i, i + needle.len()) == needle
}

/// The characters of a string slice, in order.
pub fn chars_of(s: &str) -> (res: Vec<char>)
    ensures
        res@ == s@,
{
    let mut res: Vec<char> = Vec::new();
    for c in it: s.chars()
        invariant
            res@ == it.seq().take(it.index() as int),
            it.seq() == s@,
    {
        res.push(c);
    }
    res
}

/// Collects characters into a `String` (`FromIterator<char> for String`).
/// The contract claims that the string holds exactly these characters, in order.
#[verifier::external_body]
pub(crate) fn string_from(chars: &Vec<char>) -> (res: String)
    ensures
        res@ == chars@,
{
    chars.iter().collect::<String>()
}

/// ASCII lower-casing of one character.
pub fn lower_char_exec(c: char) -> (res: char)
    ensures
        res == lower_char(c),
{
    if 'A' <= c && c <= 'Z' {
        let code: u32 = (c as u32) + 32;
        assert(code <= 0x7a);
        (code as u8) as char
    } else {
        c
    }
}

/// `to_ascii_lowercase` on a character sequence.
pub fn to_ascii_lowercase(s: &Vec<char>) -> (res: Vec<char>)
    ensures
        res@ == ascii_lower(s@),
{
    let mut res: Vec<char> = Vec::new();
    let mut i: usize = 0;
    while i < s.len()
        invariant
            i <= s.len(),
            res@ == ascii_lower(s@.take(i as int)),
        decreases s.len() - i,
    {
        let c = lower_char_exec(s[i]);
        res.push(c);
        i = i + 1;
        assert(ascii_lower(s@.take(i as int)) =~= ascii_lower(s@.take(i - 1 as int)).push(c));
    }
    assert(s@.take(i as int) =~= s@);
    res
}

/// Whether two character sequences are identical.
pub fn chars_equal(a: &Vec<char>, b: &Vec<char>) -> (res: bool)
    ensures
        res == (a@ == b@),
{
    if a.len() != b.len() {
        return false;
    }
    let mut i: usize = 0;
    while i < a.len()
        invariant
            a.len() == b.len(),
            i <= a.len(),
            a@.take(i as int) == b@.take(i as int),
        decreases a.len() - i,
    {
        if a[i] != b[i] {
            assert(a@[i as int] != b@[i as int]);
            return false;
        }
        assert(a@.take(i + 1 as int) =~= a@.take(i as int).push(a@[i as int]));
        assert(b@.take(i + 1 as int) =~= b@.take(i as int).push(b@[i as int]));
        i = i + 1;
    }
    assert(a@.take(i as int) =~= a@);
    assert(b@.take(i as int) =~= b@);
    true
}

/// `eq_ignore_ascii_case` on character sequences.
pub fn eq_ignore_ascii_case(a: &Vec<char>, b: &Vec<char>) -> (res: bool)
    ensures
        res == eq_ignore_case(a@, b@),
{
    let la = to_ascii_lowercase(a);
    let lb = to_ascii_lowercase(b);
    chars_equal(&la, &lb)
}

/// Whether `s` equals the ASCII-lowercase literal `lit` when ASCII case is ignored.
pub fn matches_literal_ignore_case(s: &Vec<char>, lit: &str) -> (res: bool)
    ensures
        res == eq_ignore_case(s@, lit@),
{
    let l = chars_of(lit);
    eq_ignore_ascii_case(s, &l)
}

/// Whether `s` is exactly the literal `lit`.
pub fn equals_literal(s: &Vec<char>, lit: &str) -> (res: bool)
    ensures
        res == (s@ == lit@),
{
    let l = chars_of(lit);
    chars_equal(s, &l)
}

/// `char::is_whitespace`.
pub fn is_white_space_exec(c: char) -> (res: bool)
    ensures
        res == is_white_space(c),
{
    ('\u{9}' <= c && c <= '\u{d}') || c == ' ' || c == '\u{85}' || c == '\u{a0}' || c == '\u{1680}'
        || ('\u{2000}' <= c && c <= '\u{200a}') || c == '\u{2028}' || c == '\u{2029}' || c
        == '\u{202f}' || c == '\u{205f}' || c == '\u{3000}'
}

proof fn lemma_trim_end_stable(s: Seq<char>)
    requires
        s.len() == 0 || !is_white_space(s.last()),
    ensures
        trim_end(s) == s,
{
}

/// `str::trim` on a character sequence.
pub fn trim_chars(s: &Vec<char>) -> (res: Vec<char>)
    ensures
        res@ == trim(s@),
{
    let n = s.len();
    let mut i: usize = 0;
    assert(s@.skip(0) =~= s@);
    while i < n && is_white_space_exec(s[i])
        invariant
            n == s.len(),
            i <= n,
            trim_start(s@) == trim_start(s@.skip(i as int)),
        decreases n - i,
    {
        assert(s@.skip(i as int).drop_first() =~= s@.skip(i + 1 as int));
        i = i + 1;
    }
    assert(trim_start(s@.skip(i as int)) == s@.skip(i as int));
    let mut j: usize = n;
    assert(s@.subrange(i as int, j as int) =~= s@.skip(i as int));
    while j > i && is_white_space_exec(s[j - 1])
        invariant
            n == s.len(),
            i <= j <= n,
            trim(s@) == trim_end(s@.subrange(i as int, j as int)),
        decreases j - i,
    {
        assert(s@.subrange(i as int, j as int).drop_last() =~= s@.subrange(i as int, j - 1 as int));
        j = j - 1;
    }
    proof {
        lemma_trim_end_stable(s@.subrange(i as int, j as int));
    }
    let mut res: Vec<char> = Vec::new();
    let mut k: usize = i;
    while k < j
        invariant
            n == s.len(),
            i <= k <= j <= n,
            res@ == s@.subrange(i as int, k as int),
        decreases j - k,
    {
        res.push(s[k]);
        assert(s@.subrange(i as int, k + 1 as int) =~= s@.subrange(i as int, k as int).push(s@[k as int]));
        k = k + 1;
    }
    res
}

/// Whether `hay` starts with `pre`.
pub fn starts_with_chars(hay: &Vec<char>, pre: &Vec<char>) -> (res: bool)
    ensures
        res == (pre@.len() <= hay@.len() && hay@.take(pre@.len() as int) == pre@),
{
    if pre.len() > hay.len() {
        return false;
    }
    let mut i: usize = 0;
    while i < pre.len()
        invariant
            pre.len() <= hay.len(),
            i <= pre.len(),
            hay@.take(i as int) == pre@.take(i as int),
        decreases pre.len() - i,
    {
        if hay[i] != pre[i] {
            assert(hay@.take(pre@.len() as int)[i as int] != pre@[i as int]);
            return false;
        }
        assert(hay@.take(i + 1 as int) =~= hay@.take(i as int).push(hay@[i as int]));
        assert(pre@.take(i + 1 as int) =~= pre@.take(i as int).push(pre@[i as int]));
        i = i + 1;
    }
    assert(pre@.take(i as int) =~= pre@);
    true
}

/// Whether `needle` occurs as a contiguous run inside `hay` (`str::contains`).
pub fn contains_chars(hay: &Vec<char>, needle: &Vec<char>) -> (res: bool)
    ensures
        res == contains_run(hay@, needle@),
{
    if needle.len() > hay.len() {
        return false;
    }
    let mut start: usize = 0;
    let last = hay.len() - needle.len();
    let mut start: usize = 0;
    loop
        invariant
            needle.len() <= hay.len(),
            last == hay.len() - needle.len(),
            start <= last,
            forall|k: int| 0 <= k < start ==> #[trigger] hay@.subrange(k, k + needle@.len()) != needle@,
        decreases last - start,
    {
        let mut i: usize = 0;
        let mut same = true;
        while i < needle.len()
            invariant
                start + needle.len() <= hay.len(),
                i <= needle.len(),
                same ==> hay@.subrange(start as int, start + i) == needle@.take(i as int),
                !same ==> hay@.subrange(start as int, start + needle@.len()) != needle@,
            decreases needle.len() - i,
        {
            if same {
                if hay[start + i] != needle[i] {
                    assert(hay@.subrange(start as int, start + needle@.len())[i as int] != needle@[i as int]);
                    same = false;
                } else {
                    assert(hay@.subrange(start as int, start + i + 1) =~= hay@.subrange(start as int, start + i).push(hay@[start + i]));
                    assert(needle@.take(i + 1 as int) =~= needle@.take(i as int).push(needle@[i as int]));
                }
            }
            i = i + 1;
        }
        if same {
            assert(needle@.take(i as int) =~= needle@);
            return true;
        }
        if start == last {
            assert forall|k: int| 0 <= k && k + needle@.len() <= hay@.len() implies #[trigger] hay@.subrange(k, k + needle@.len()) != needle@ by {
                if k < start {
                } else {
                    assert(k == start);
                }
            }
            return false;
        }
        start = start + 1;
    }
}

} // verus!

//! Text primitives for the analytics: splitting message content on the
//! single-space character, substring search, and the Unicode operations the
//! standard library supplies.
//!
//! Splitting and substring search are implemented and verified here against
//! exact specifications. Unicode case folding and character classification
//! are deferred to std behind trusted wrappers whose results are named by
//! uninterpreted spec functions: the same input always yields the same
//! (unspecified) output.

use vstd::prelude::*;
use vstd::string::StrSliceExecFns;

verus! {

/// What `str::to_lowercase` returns for a given character sequence; the
/// result depends on the characters alone.
pub uninterp spec fn lower_of(s: Seq<char>) -> Seq<char>;

/// What `char::is_alphanumeric` returns for a given character.
pub uninterp spec fn alnum_char(c: char) -> bool;

/// What `char::is_alphabetic` returns for a given character.
pub uninterp spec fn alpha_char(c: char) -> bool;

/// Relies on str::to_lowercase: the lowercase equivalent of a string, a
/// function of its characters alone.
#[verifier::external_body]
pub(crate) fn lowercase(s: &str) -> (r: String)
    ensures
        r@ == lower_of(s@),
{
    s.to_lowercase()
}

/// Relies on char::is_alphanumeric: whether a character is a letter or a
/// digit, a function of the character alone.
#[verifier::external_body]
pub(crate) fn char_is_alphanumeric(c: char) -> (b: bool)
    ensures
        b == alnum_char(c),
{
    c.is_alphanumeric()
}

/// Relies on char::is_alphabetic: whether a character is a letter, a
/// function of the character alone.
#[verifier::external_body]
pub(crate) fn char_is_alphabetic(c: char) -> (b: bool)
    ensures
        b == alpha_char(c),
{
    c.is_alphabetic()
}

/// Relies on String::push: appends one character at the end of the string.
#[verifier::external_body]
pub(crate) fn push_char(s: &mut String, c: char)
    ensures
        final(s)@ == old(s)@.push(c),
{
    s.push(c);
}

/// The characters of a string slice, as a vector.
pub fn str_chars(s: &str) -> (r: Vec<char>)
    ensures
        r@ == s@,
{
    let n = s.unicode_len();
    let mut r: Vec<char> = Vec::new();
    let mut i: usize = 0;
    while i < n
        invariant
            n == s@.len(),
            i <= n,
            r@ == s@.take(i as int),
        decreases n - i,
    {
        r.push(s.get_char(i));
        i = i + 1;
        proof {
            assert(r@ =~= s@.take(i as int));
        }
    }
    proof {
        assert(s@.take(i as int) =~= s@);
    }
    r
}

/// A string built from the given characters.
pub fn chars_to_string(v: &Vec<char>) -> (r: String)
    ensures
        r@ == v@,
{
    let mut r = String::new();
    let mut i: usize = 0;
    while i < v.len()
        invariant
            i <= v@.len(),
            r@ == v@.take(i as int),
        decreases v@.len() - i,
    {
        push_char(&mut r, v[i]);
        i = i + 1;
        proof {
            assert(r@ =~= v@.take(i as int));
        }
    }
    proof {
        assert(v@.take(i as int) =~= v@);
    }
    r
}

/// The fields of `s` split on the single-space character, in order.
///
/// This is field splitting on a literal `' '`, not whitespace tokenization:
/// consecutive spaces yield empty fields, and an empty input yields one empty
/// field, so the number of fields always equals the number of spaces plus one.
pub open spec fn split_spaces(s: Seq<char>) -> Seq<Seq<char>>
    decreases s.len(),
{
    if s.len() == 0 {
        seq![Seq::<char>::empty()]
    } else if s.last() == ' ' {
        split_spaces(s.drop_last()).push(Seq::<char>::empty())
    } else {
        let r = split_spaces(s.drop_last());
        r.update(r.len() - 1, r.last().push(s.last()))
    }
}

/// Splitting always yields at least one field.
pub proof fn lemma_split_spaces_nonempty(s: Seq<char>)
    ensures
        split_spaces(s).len() >= 1,
    decreases s.len(),
{
    if s.len() != 0 {
        lemma_split_spaces_nonempty(s.drop_last());
    }
}

/// The fields of `chars` split on the single-space character.
pub fn split_on_space(chars: &Vec<char>) -> (r: Vec<Vec<char>>)
    ensures
        r.deep_view() == split_spaces(chars@),
{
    let mut toks: Vec<Vec<char>> = Vec::new();
    let mut cur: Vec<char> = Vec::new();
    let mut i: usize = 0;
    while i < chars.len()
        invariant
            i <= chars@.len(),
            toks.deep_view().push(cur@) == split_spaces(chars@.take(i as int)),
        decreases chars@.len() - i,
    {
        let ghost pre = chars@.take(i as int);
        let c = chars[i];
        if c == ' ' {
            toks.push(cur);
            cur = Vec::new();
        } else {
            cur.push(c);
        }
        i = i + 1;
        proof {
            let cur_seq = chars@.take(i as int);
            assert(cur_seq.drop_last() =~= pre);
            assert(cur_seq.last() == c);
            if c == ' ' {
                assert(toks.deep_view().push(cur@) =~~= split_spaces(cur_seq));
            } else {
                let r = split_spaces(pre);
                lemma_split_spaces_nonempty(pre);
                assert(toks.deep_view().push(cur@) =~~= r.update(
                    r.len() - 1,
                    r.last().push(c),
                ));
            }
            assert(toks.deep_view().push(cur@) == split_spaces(cur_seq));
        }
    }
    proof {
        assert(chars@.take(i as int) =~= chars@);
    }
    toks.push(cur);
    proof {
        assert(toks.deep_view() =~~= split_spaces(chars@));
    }
    toks
}

/// Whether `needle` occurs as a contiguous subsequence of `hay`. The empty
/// needle occurs in every sequence.
pub open spec fn is_substring_of(needle: Seq<char>, hay: Seq<char>) -> bool {
    exists|j: int|
        0 <= j && j + needle.len() <= hay.len() && #[trigger] hay.subrange(j, j + needle.len())
            == needle
}

/// Substring search: whether `needle` occurs contiguously in `hay`.
pub fn contains_chars(hay: &Vec<char>, needle: &Vec<char>) -> (b: bool)
    ensures
        b == is_substring_of(needle@, hay@),
{
    if needle.len() > hay.len() {
        return false;
    }
    if needle.len() == 0 {
        proof {
            assert(hay@.subrange(0, 0 + needle@.len() as int) =~= needle@);
            assert(is_substring_of(needle@, hay@));
        }
        return true;
    }
    let mut j: usize = 0;
    while j <= hay.len() - needle.len()
        invariant
            1 <= needle@.len() <= hay@.len(),
            hay@.len() <= usize::MAX,
            j <= hay@.len() - needle@.len() + 1,
            forall|j0: int|
                0 <= j0 < j ==> #[trigger] hay@.subrange(j0, j0 + needle@.len()) != needle@,
        decreases hay@.len() - needle@.len() + 1 - j,
    {
        let mut k: usize = 0;
        let mut hit = true;
        while hit && k < needle.len()
            invariant
                k <= needle@.len(),
                j + needle@.len() <= hay@.len(),
                hay@.len() <= usize::MAX,
                hit ==> (forall|k0: int| 0 <= k0 < k ==> hay@[j + k0] == needle@[k0]),
                !hit ==> hay@.subrange(j as int, j + needle@.len()) != needle@,
            decreases needle@.len() - k,
        {
            if hay[j + k] != needle[k] {
                proof {
                    let w = hay@.subrange(j as int, j + needle@.len());
                    assert(w[k as int] == hay@[j + k]);
                    assert(w != needle@);
                }
                hit = false;
                k = needle.len();
            } else {
                k = k + 1;
            }
        }
        if hit {
            proof {
                assert(hay@.subrange(j as int, j + needle@.len()) =~= needle@);
            }
            return true;
        }
        j = j + 1;
    }
    proof {
        assert forall|j0: int|
            0 <= j0 && j0 + needle@.len() <= hay@.len() implies #[trigger] hay@.subrange(
            j0,
            j0 + needle@.len(),
        ) != needle@ by {
            assert(j0 < j);
        }
    }
    false
}

} // verus!

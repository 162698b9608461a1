//! The filename codec: a page identity and a format extension are encoded into
//! the fixed pattern `{chapter}_{page}.{ext}`, and decoded back. The filename
//! is the persisted identity — the only channel by which later stages recover
//! ordering after files were written in arbitrary completion order — so one
//! parse/format pair lives here and is used by every stage.

use vstd::prelude::*;
use crate::digits::{
    all_digits, dec_digits, is_digit, lemma_dec_digits_val, parse_u32, str_val, u32_to_decimal,
};
use crate::ident::PageIdentity;

verus! {

/// The smallest index at which the character occurs, if it occurs.
pub open spec fn find_first(s: Seq<char>, c: char) -> Option<int>
    decreases s.len(),
{
    if s.len() == 0 {
        None
    } else if s[0] == c {
        Some(0int)
    } else {
        match find_first(s.skip(1), c) {
            None => None,
            Some(i) => Some(i + 1),
        }
    }
}

/// The largest index at which the character occurs, if it occurs.
pub open spec fn find_last(s: Seq<char>, c: char) -> Option<int>
    decreases s.len(),
{
    if s.len() == 0 {
        None
    } else if s.last() == c {
        Some(s.len() - 1)
    } else {
        find_last(s.drop_last(), c)
    }
}

/// What `find_first` returns: the found index holds the character and nothing
/// before it does; a miss means the character is absent.
pub proof fn lemma_find_first(s: Seq<char>, c: char)
    ensures
        match find_first(s, c) {
            Some(i) => 0 <= i < s.len() && s[i] == c
                && forall|j: int| 0 <= j < i ==> s[j] != c,
            None => forall|j: int| 0 <= j < s.len() ==> s[j] != c,
        },
    decreases s.len(),
{
    if s.len() > 0 && s[0] != c {
        let t = s.skip(1);
        lemma_find_first(t, c);
        assert(forall|j: int| 1 <= j < s.len() ==> #[trigger] s[j] == t[j - 1]);
        match find_first(t, c) {
            None => {
                assert(forall|j: int| 0 <= j < s.len() ==> #[trigger] s[j] != c) by {
                    assert(forall|j: int| 1 <= j < s.len() ==> #[trigger] t[j - 1] != c);
                }
            }
            Some(i) => {
                assert(s[i + 1] == t[i]);
                assert(forall|j: int| 0 <= j < i + 1 ==> #[trigger] s[j] != c) by {
                    assert(forall|j: int| 1 <= j < i + 1 ==> #[trigger] t[j - 1] != c);
                }
            }
        }
    }
}

/// The index before which the character is absent and at which it stands is
/// exactly what `find_first` returns.
pub proof fn lemma_find_first_is(s: Seq<char>, c: char, k: int)
    requires
        0 <= k < s.len(),
        s[k] == c,
        forall|j: int| 0 <= j < k ==> s[j] != c,
    ensures
        find_first(s, c) == Some(k),
{
    lemma_find_first(s, c);
    match find_first(s, c) {
        None => {
            assert(s[k] != c);
        }
        Some(i) => {
            if i < k {
                assert(s[i] != c);
            } else if k < i {
                assert(s[k] != c);
            }
        }
    }
}

/// What `find_last` returns: the found index holds the character and nothing
/// after it does; a miss means the character is absent.
pub proof fn lemma_find_last(s: Seq<char>, c: char)
    ensures
        match find_last(s, c) {
            Some(i) => 0 <= i < s.len() && s[i] == c
                && forall|j: int| i < j < s.len() ==> s[j] != c,
            None => forall|j: int| 0 <= j < s.len() ==> s[j] != c,
        },
    decreases s.len(),
{
    if s.len() > 0 && s.last() != c {
        lemma_find_last(s.drop_last(), c);
        assert(forall|j: int| 0 <= j < s.len() - 1 ==> s.drop_last()[j] == #[trigger] s[j]);
    }
}

/// The prefix of the sequence up to the first occurrence of the character, or
/// the whole sequence when the character is absent.
pub open spec fn cut_at(s: Seq<char>, c: char) -> Seq<char> {
    match find_first(s, c) {
        Some(i) => s.take(i),
        None => s,
    }
}

/// The suffix of the sequence after the last occurrence of the character, or
/// the whole sequence when the character is absent.
pub open spec fn tail_after_last(s: Seq<char>, c: char) -> Seq<char> {
    match find_last(s, c) {
        Some(i) => s.skip(i + 1),
        None => s,
    }
}

/// A page identity and a format extension encoded as a filename:
/// `{chapter}_{page}.{ext}`, both numbers in canonical decimal.
pub open spec fn encode_name(id: PageIdentity, ext: Seq<char>) -> Seq<char> {
    dec_digits(id.chapter as int) + seq!['_'] + dec_digits(id.page as int) + seq!['.'] + ext
}

/// The identity recovered from a filename: the digits before the first `_`
/// give the chapter; of what follows, the digits before the first `_` or `.`
/// give the page. Anything else — no `_`, an empty or non-digit component, or
/// a value beyond `u32` — is malformed.
pub open spec fn parse_name(s: Seq<char>) -> Option<PageIdentity> {
    match find_first(s, '_') {
        None => None,
        Some(u) => {
            let chap = s.take(u);
            let rest = s.skip(u + 1);
            let page = cut_at(cut_at(rest, '_'), '.');
            if chap.len() > 0 && all_digits(chap) && str_val(chap) <= u32::MAX
                && page.len() > 0 && all_digits(page) && str_val(page) <= u32::MAX {
                Some(PageIdentity { chapter: str_val(chap) as u32, page: str_val(page) as u32 })
            } else {
                None
            }
        }
    }
}

/// The format extension carried by a remote resource identifier: what follows
/// the last `.` of what follows the last `/`.
pub open spec fn ext_of(url: Seq<char>) -> Seq<char> {
    tail_after_last(tail_after_last(url, '/'), '.')
}

/// Find the first occurrence of a character in a string.
pub fn find_char(s: &str, c: char) -> (r: Option<usize>)
    ensures
        match r {
            Some(i) => find_first(s@, c) == Some(i as int),
            None => find_first(s@, c) is None,
        },
{
    let len = s.unicode_len();
    let mut i: usize = 0;
    while i < len
        invariant
            0 <= i <= len,
            len == s@.len(),
            forall|j: int| 0 <= j < i ==> s@[j] != c,
        decreases len - i,
    {
        if s.get_char(i) == c {
            proof {
                lemma_find_first_is(s@, c, i as int);
            }
            return Some(i);
        }
        i += 1;
    }
    proof {
        lemma_find_first(s@, c);
        if let Some(k) = find_first(s@, c) {
            assert(s@[k] != c);
        }
    }
    None
}

/// Find the last occurrence of a character in a string.
pub fn find_char_last(s: &str, c: char) -> (r: Option<usize>)
    ensures
        match r {
            Some(i) => find_last(s@, c) == Some(i as int),
            None => find_last(s@, c) is None,
        },
{
    let len = s.unicode_len();
    let mut i: usize = len;
    while i > 0
        invariant
            0 <= i <= len,
            len == s@.len(),
            forall|j: int| i <= j < len ==> s@[j] != c,
        decreases i,
    {
        i -= 1;
        if s.get_char(i) == c {
            proof {
                lemma_find_last(s@, c);
                match find_last(s@, c) {
                    None => {
                        assert(s@[i as int] != c);
                    }
                    Some(k) => {
                        if k < i {
                            assert(s@[i as int] != c);
                        } else if i < k {
                            assert(s@[k] != c);
                        }
                    }
                }
            }
            return Some(i);
        }
    }
    proof {
        lemma_find_last(s@, c);
        if let Some(k) = find_last(s@, c) {
            assert(s@[k] != c);
        }
    }
    None
}

/// Render a page identity and extension as its filename.
pub fn format_filename(id: &PageIdentity, ext: &str) -> (r: String)
    ensures
        r@ == encode_name(*id, ext@),
{
    let mut s = u32_to_decimal(id.chapter);
    s.append("_");
    let p = u32_to_decimal(id.page);
    s.append(p.as_str());
    s.append(".");
    s.append(ext);
    proof {
        reveal_strlit("_");
        reveal_strlit(".");
        assert(s@ =~= encode_name(*id, ext@));
    }
    s
}

/// Recover the page identity persisted in a filename; `None` marks a
/// malformed name.
pub fn parse_filename(s: &str) -> (r: Option<PageIdentity>)
    ensures
        r == parse_name(s@),
{
    let len = s.unicode_len();
    let u = match find_char(s, '_') {
        None => {
            return None;
        }
        Some(u) => u,
    };
    proof {
        lemma_find_first(s@, '_');
    }
    let chap_seg = s.substring_char(0, u);
    let rest = s.substring_char(u + 1, len);
    proof {
        assert(rest@ =~= s@.skip(u + 1));
    }
    let r1 = match find_char(rest, '_') {
        None => rest,
        Some(i) => {
            proof {
                lemma_find_first(rest@, '_');
            }
            rest.substring_char(0, i)
        }
    };
    let page_seg = match find_char(r1, '.') {
        None => r1,
        Some(i) => {
            proof {
                lemma_find_first(r1@, '.');
            }
            r1.substring_char(0, i)
        }
    };
    proof {
        assert(chap_seg@ =~= s@.take(u as int));
        assert(r1@ =~= cut_at(s@.skip(u + 1), '_'));
        assert(page_seg@ =~= cut_at(cut_at(s@.skip(u + 1), '_'), '.'));
    }
    let chapter = match parse_u32(chap_seg) {
        None => {
            return None;
        }
        Some(v) => v,
    };
    let page = match parse_u32(page_seg) {
        None => {
            return None;
        }
        Some(v) => v,
    };
    Some(PageIdentity { chapter, page })
}

/// Extract the format extension from a remote resource identifier.
pub fn extension_of(url: &str) -> (r: &str)
    ensures
        r@ == ext_of(url@),
{
    let len = url.unicode_len();
    let seg = match find_char_last(url, '/') {
        None => url,
        Some(i) => {
            proof {
                lemma_find_last(url@, '/');
            }
            url.substring_char(i + 1, len)
        }
    };
    proof {
        assert(seg@ =~= tail_after_last(url@, '/'));
    }
    let seg_len = seg.unicode_len();
    let r = match find_char_last(seg, '.') {
        None => seg,
        Some(i) => {
            proof {
                lemma_find_last(seg@, '.');
            }
            seg.substring_char(i + 1, seg_len)
        }
    };
    proof {
        assert(r@ =~= tail_after_last(tail_after_last(url@, '/'), '.'));
    }
    r
}

/// Round trip of the filename codec: every filename formatted from an identity
/// parses back to exactly that identity, whatever the extension.
pub proof fn lemma_name_round_trip(id: PageIdentity, ext: Seq<char>)
    ensures
        parse_name(encode_name(id, ext)) == Some(id),
{
    let dc = dec_digits(id.chapter as int);
    let dp = dec_digits(id.page as int);
    lemma_dec_digits_val(id.chapter as int);
    lemma_dec_digits_val(id.page as int);
    let s = encode_name(id, ext);
    let lc = dc.len() as int;
    let lp = dp.len() as int;

    // The first '_' is the separator after the chapter digits.
    assert(forall|j: int| 0 <= j < lc ==> s[j] == dc[j]);
    assert(forall|j: int| 0 <= j < lc ==> #[trigger] s[j] != '_') by {
        assert(forall|j: int| 0 <= j < lc ==> is_digit(#[trigger] dc[j]));
    }
    assert(s[lc] == '_');
    lemma_find_first_is(s, '_', lc);

    let chap = s.take(lc);
    assert(chap =~= dc);

    let rest = s.skip(lc + 1);
    assert(rest =~= dp + seq!['.'] + ext);
    assert(forall|j: int| 0 <= j < lp ==> rest[j] == dp[j]);
    assert(rest[lp] == '.');
    assert(forall|j: int| 0 <= j <= lp ==> #[trigger] rest[j] != '_') by {
        assert(forall|j: int| 0 <= j < lp ==> is_digit(#[trigger] dp[j]));
    }

    // Cutting at the first '_' of the remainder keeps the page digits and
    // their '.' separator intact.
    let r1 = cut_at(rest, '_');
    lemma_find_first(rest, '_');
    assert(r1.len() > lp && forall|j: int| 0 <= j <= lp ==> #[trigger] r1[j] == rest[j]) by {
        match find_first(rest, '_') {
            None => {}
            Some(i) => {
                assert(rest[i] == '_');
                assert(i > lp);
            }
        }
    }

    // The first '.' of what is left is the separator after the page digits.
    assert(forall|j: int| 0 <= j < lp ==> #[trigger] r1[j] != '.') by {
        assert(forall|j: int| 0 <= j < lp ==> is_digit(#[trigger] dp[j]));
    }
    assert(r1[lp] == '.');
    lemma_find_first_is(r1, '.', lp);
    let page = cut_at(r1, '.');
    assert(page =~= dp);

    assert(str_val(chap) == id.chapter as int);
    assert(str_val(page) == id.page as int);
}

} // verus!

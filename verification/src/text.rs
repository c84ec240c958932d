//! Small verified text helpers: substring search and decimal rendering.

use vstd::prelude::*;

verus! {

/// `needle` occurs contiguously in `hay`.
pub open spec fn is_substring(needle: Seq<char>, hay: Seq<char>) -> bool {
    exists|k: int|
        0 <= k && k + needle.len() <= hay.len() && #[trigger] hay.subrange(k, k + needle.len())
            == needle
}

/// `needle` matches `hay` at offset `k`.
spec fn matches_at(needle: Seq<char>, hay: Seq<char>, k: int) -> bool {
    &&& 0 <= k
    &&& k + needle.len() <= hay.len()
    &&& forall|j: int| 0 <= j < needle.len() ==> hay[k + j] == needle[j]
}

proof fn lemma_matches_at_substring(needle: Seq<char>, hay: Seq<char>, k: int)
    requires
        matches_at(needle, hay, k),
    ensures
        hay.subrange(k, k + needle.len()) == needle,
{
    assert(hay.subrange(k, k + needle.len()) =~= needle);
}

/// Whether `needle` occurs as a contiguous substring of `hay`, by direct
/// character comparison at every offset.
pub fn str_contains(hay: &str, needle: &str) -> (r: bool)
    ensures
        r == is_substring(needle@, hay@),
{
    let hay_len = hay.unicode_len();
    let needle_len = needle.unicode_len();
    if needle_len > hay_len {
        proof {
            if is_substring(needle@, hay@) {
                let k = choose|k: int|
                    0 <= k && k + needle@.len() <= hay@.len() && #[trigger] hay@.subrange(
                        k,
                        k + needle@.len(),
                    ) == needle@;
                assert(k + needle@.len() <= hay@.len());
            }
        }
        return false;
    }
    let mut k: usize = 0;
    while k <= hay_len - needle_len
        invariant
            needle_len <= hay_len,
            hay_len == hay@.len(),
            needle_len == needle@.len(),
            k <= hay_len - needle_len + 1,
            forall|k2: int| 0 <= k2 < k ==> !matches_at(needle@, hay@, k2),
        decreases hay_len - needle_len - k + 1,
    {
        let mut j: usize = 0;
        let mut hit = true;
        while j < needle_len
            invariant
                needle_len == needle@.len(),
                hay_len == hay@.len(),
                needle_len <= hay_len,
                k <= hay_len - needle_len,
                j <= needle_len,
                hit ==> forall|j2: int| 0 <= j2 < j ==> hay@[k + j2] == needle@[j2],
                !hit ==> !matches_at(needle@, hay@, k as int),
            decreases needle_len - j,
        {
            if hit {
                let hc = hay.get_char(k + j);
                let nc = needle.get_char(j);
                if hc != nc {
                    proof {
                        assert(hay@[k + j] != needle@[j as int]);
                    }
                    hit = false;
                }
            }
            j = j + 1;
        }
        if hit {
            proof {
                assert(matches_at(needle@, hay@, k as int));
                lemma_matches_at_substring(needle@, hay@, k as int);
            }
            return true;
        }
        k = k + 1;
    }
    proof {
        if is_substring(needle@, hay@) {
            let k2 = choose|k2: int|
                0 <= k2 && k2 + needle@.len() <= hay@.len() && #[trigger] hay@.subrange(
                    k2,
                    k2 + needle@.len(),
                ) == needle@;
            assert(forall|j: int|
                0 <= j < needle@.len() ==> #[trigger] hay@.subrange(k2, k2 + needle@.len())[j]
                    == hay@[k2 + j]);
            assert(matches_at(needle@, hay@, k2));
        }
    }
    false
}

/// The decimal digit character of `d`, for `d < 10`.
pub open spec fn digit_char(d: nat) -> char {
    if d == 0 {
        '0'
    } else if d == 1 {
        '1'
    } else if d == 2 {
        '2'
    } else if d == 3 {
        '3'
    } else if d == 4 {
        '4'
    } else if d == 5 {
        '5'
    } else if d == 6 {
        '6'
    } else if d == 7 {
        '7'
    } else if d == 8 {
        '8'
    } else {
        '9'
    }
}

/// The usual decimal rendering of `n`, most significant digit first.
pub open spec fn dec_seq(n: nat) -> Seq<char>
    decreases n,
{
    if n < 10 {
        seq![digit_char(n)]
    } else {
        dec_seq(n / 10).push(digit_char(n % 10))
    }
}

/// The one-character string of the decimal digit `d`.
fn digit_str(d: u16) -> (r: &'static str)
    requires
        d < 10,
    ensures
        r@ == seq![digit_char(d as nat)],
{
    proof {
        reveal_strlit("0");
        reveal_strlit("1");
        reveal_strlit("2");
        reveal_strlit("3");
        reveal_strlit("4");
        reveal_strlit("5");
        reveal_strlit("6");
        reveal_strlit("7");
        reveal_strlit("8");
        reveal_strlit("9");
    }
    let r = match d {
        0 => "0",
        1 => "1",
        2 => "2",
        3 => "3",
        4 => "4",
        5 => "5",
        6 => "6",
        7 => "7",
        8 => "8",
        _ => "9",
    };
    proof {
        assert(r@ =~= seq![digit_char(d as nat)]);
    }
    r
}

/// Renders `n` in decimal.
pub fn dec_string(n: u16) -> (r: String)
    ensures
        r@ == dec_seq(n as nat),
    decreases n,
{
    if n < 10 {
        let mut s = String::new();
        s.append(digit_str(n));
        proof {
            assert(s@ =~= dec_seq(n as nat));
        }
        s
    } else {
        let mut s = dec_string(n / 10);
        s.append(digit_str(n % 10));
        proof {
            assert(s@ =~= dec_seq(n as nat));
        }
        s
    }
}

} // verus!

//! Byte-level text helpers used by the file name and path parsers.

use vstd::prelude::*;
use vstd::string::StringSliceAdditionalSpecFns;

verus! {

/// `pat` occurs in `hay` starting at byte position `i`.
pub open spec fn occurs_at(hay: Seq<u8>, pat: Seq<u8>, i: int) -> bool {
    0 <= i && i + pat.len() <= hay.len() && hay.subrange(i, i + pat.len()) == pat
}

/// `pat` occurs somewhere in `hay`.
pub open spec fn contains_bytes(hay: Seq<u8>, pat: Seq<u8>) -> bool {
    exists|i: int| occurs_at(hay, pat, i)
}

/// The position of the first occurrence of `pat` in `hay`, if there is one.
pub open spec fn first_occurrence(hay: Seq<u8>, pat: Seq<u8>) -> Option<int> {
    if contains_bytes(hay, pat) {
        Some(choose|i: int| occurs_at(hay, pat, i) && forall|j: int| 0 <= j < i ==> !occurs_at(hay, pat, j))
    } else {
        None
    }
}

/// The bytes of a sequence of ASCII characters.
pub open spec fn ascii_bytes(chars: Seq<char>) -> Seq<u8> {
    chars.map_values(|c: char| c as u8)
}

/// The UTF-8 bytes of an ASCII string are its characters, one byte each.
pub proof fn lemma_ascii_str_bytes(s: &str)
    requires
        vstd::utf8::is_ascii_chars(s@),
    ensures
        s.spec_bytes() == ascii_bytes(s@),
{
    vstd::utf8::is_ascii_chars_encode_utf8(s@);
    assert(s.spec_bytes() =~= ascii_bytes(s@));
}

fn matches_at(hay: &[u8], pat: &[u8], i: usize) -> (r: bool)
    requires
        i + pat@.len() <= hay@.len(),
    ensures
        r == occurs_at(hay@, pat@, i as int),
{
    let n = hay.len();
    let mut k: usize = 0;
    while k < pat.len()
        invariant
            n == hay@.len(),
            i + pat@.len() <= hay@.len(),
            k <= pat@.len(),
            forall|m: int| 0 <= m < k ==> hay@[i + m] == pat@[m],
        decreases pat@.len() - k,
    {
        assert(i + k < hay@.len());
        if hay[i + k] != pat[k] {
            assert(hay@.subrange(i as int, i + pat@.len())[k as int] != pat@[k as int]);
            return false;
        }
        k += 1;
    }
    assert(hay@.subrange(i as int, i + pat@.len()) =~= pat@);
    true
}

/// Find the byte position of the first occurrence of `pat` in `hay`.
pub fn find_bytes(hay: &[u8], pat: &[u8]) -> (r: Option<usize>)
    ensures
        match r {
            Some(i) => occurs_at(hay@, pat@, i as int) && forall|j: int| 0 <= j < i ==> !occurs_at(hay@, pat@, j),
            None => !contains_bytes(hay@, pat@),
        },
        r matches Some(i) ==> first_occurrence(hay@, pat@) == Some(i as int),
        r is None ==> first_occurrence(hay@, pat@) is None,
{
    if pat.len() > hay.len() {
        assert forall|j: int| !occurs_at(hay@, pat@, j) by {}
        return None;
    }
    if pat.len() == 0 {
        assert(occurs_at(hay@, pat@, 0)) by {
            assert(hay@.subrange(0, 0) =~= pat@);
        }
        return Some(0);
    }
    let mut i: usize = 0;
    while i <= hay.len() - pat.len()
        invariant
            1 <= pat@.len() <= hay@.len(),
            i <= hay@.len() - pat@.len() + 1,
            forall|j: int| 0 <= j < i ==> !occurs_at(hay@, pat@, j),
        decreases hay@.len() - i,
    {
        if matches_at(hay, pat, i) {
            proof {
                let c = choose|k: int| occurs_at(hay@, pat@, k) && forall|j: int| 0 <= j < k ==> !occurs_at(hay@, pat@, j);
                assert(occurs_at(hay@, pat@, i as int) && forall|j: int| 0 <= j < i ==> !occurs_at(hay@, pat@, j));
                if c < i {
                } else if c > i {
                    assert(!occurs_at(hay@, pat@, i as int));
                }
            }
            return Some(i);
        }
        i += 1;
    }
    assert forall|j: int| !occurs_at(hay@, pat@, j) by {
        if 0 <= j && j + pat@.len() <= hay@.len() {
            assert(j < i);
        }
    }
    None
}

/// Whether `pat` occurs in `hay`.
pub fn contains(hay: &[u8], pat: &[u8]) -> (r: bool)
    ensures
        r == contains_bytes(hay@, pat@),
{
    find_bytes(hay, pat).is_some()
}

/// The position of the last dot in a file name, if it has one.
pub open spec fn last_dot(name: Seq<u8>) -> Option<int> {
    if exists|i: int| 0 <= i < name.len() && name[i] == 46u8 {
        Some(choose|i: int| 0 <= i < name.len() && name[i] == 46u8 && forall|j: int| i < j < name.len() ==> name[j] != 46u8)
    } else {
        None
    }
}

/// The extension of a file name as `Path::extension` reads it: what follows the last dot,
/// unless that dot is the first byte of the name or the name is `..`.
pub open spec fn path_extension(name: Seq<u8>) -> Option<Seq<u8>> {
    if name == seq![46u8, 46u8] {
        None
    } else {
        match last_dot(name) {
            Some(p) => if p > 0 { Some(name.subrange(p + 1, name.len() as int)) } else { None },
            None => None,
        }
    }
}

/// The byte position where the extension of a file name starts, if it has one.
pub fn extension_start(name: &[u8]) -> (r: Option<usize>)
    ensures
        match r {
            Some(k) => 1 <= k <= name@.len() && path_extension(name@) == Some(name@.subrange(k as int, name@.len() as int)),
            None => path_extension(name@) is None,
        },
{
    let n = name.len();
    if n == 2 && name[0] == 46u8 && name[1] == 46u8 {
        assert(name@ =~= seq![46u8, 46u8]);
        return None;
    }
    assert(name@ != seq![46u8, 46u8]) by {
        if name@ == seq![46u8, 46u8] {
            assert(name@[0] == 46u8 && name@[1] == 46u8);
        }
    }
    let mut k: usize = n;
    while k > 0
        invariant
            k <= n == name@.len(),
            name@ != seq![46u8, 46u8],
            forall|j: int| k <= j < n ==> name@[j] != 46u8,
        decreases k,
    {
        if name[k - 1] == 46u8 {
            let p = k - 1;
            proof {
                let c = choose|i: int| 0 <= i < name@.len() && name@[i] == 46u8 && forall|j: int| i < j < name@.len() ==> name@[j] != 46u8;
                assert(0 <= p < name@.len() && name@[p as int] == 46u8 && forall|j: int| p < j < name@.len() ==> name@[j] != 46u8);
                if c < p {
                } else if c > p {
                    assert(name@[c] != 46u8);
                }
                assert(last_dot(name@) == Some(p as int));
            }
            if p > 0 {
                return Some(k);
            } else {
                return None;
            }
        }
        k -= 1;
    }
    assert(!(exists|i: int| 0 <= i < name@.len() && name@[i] == 46u8));
    None
}

} // verus!

//! Fire identification codes and the allocation of new ones.

use crate::decimal::{append_zero_padded, decimal, digit_char, lemma_decimal_len, lemma_zero_padded_value, zero_padded_decimal, zeros};
use crate::error::ConnectFireError;
use vstd::prelude::*;
use vstd::string::StringSliceAdditionalSpecFns;
use vstd::utf8::{encode_utf8, is_ascii_chars, is_ascii_chars_encode_utf8};

verus! {

/// The number of generations a fire code holds: one for the six digits of the original fire, and
/// one for every further two bytes.
pub open spec fn generations(code: Seq<char>) -> int {
    (encode_utf8(code).len() - 6) / 2 + 1
}

/// The UTF-8 encoding of a concatenation is the concatenation of the encodings.
proof fn lemma_encode_concat(a: Seq<char>, b: Seq<char>)
    ensures
        encode_utf8(a + b) == encode_utf8(a) + encode_utf8(b),
    decreases a.len(),
{
    if a.len() == 0 {
        assert(a + b =~= b);
        assert(encode_utf8(a) =~= Seq::<u8>::empty());
        assert(encode_utf8(a) + encode_utf8(b) =~= encode_utf8(b));
    } else {
        lemma_encode_concat(a.drop_first(), b);
        assert((a + b).drop_first() =~= a.drop_first() + b);
        assert((a + b)[0] == a[0]);
        assert(encode_utf8(a + b) =~= encode_utf8(a) + encode_utf8(b));
    }
}

/// The digits of a number are ASCII characters.
proof fn lemma_decimal_ascii(n: nat)
    ensures
        is_ascii_chars(decimal(n)),
    decreases n,
{
    if n >= 10 {
        lemma_decimal_ascii(n / 10);
        let d = decimal(n / 10).push(digit_char(n % 10));
        assert forall|i| 0 <= i < d.len() implies '\0' <= #[trigger] d[i] <= '\u{7f}' by {
            if i < d.len() - 1 {
                assert(d[i] == decimal(n / 10)[i]);
            }
        }
    }
}

/// Two digits take two bytes.
proof fn lemma_two_digits_bytes(n: nat)
    requires
        n < 100,
    ensures
        encode_utf8(zero_padded_decimal(n, 2)).len() == 2,
{
    lemma_decimal_len(n);
    lemma_decimal_ascii(n);
    let d = decimal(n);
    if n >= 10 {
        lemma_decimal_len(n / 10);
        assert(d.len() == 2);
        is_ascii_chars_encode_utf8(d);
    } else {
        let z = zeros(1) + d;
        assert(zero_padded_decimal(n, 2) == z);
        assert(is_ascii_chars(z)) by {
            assert forall|i| 0 <= i < z.len() implies '\0' <= #[trigger] z[i] <= '\u{7f}' by {
                if i >= 1 {
                    assert(z[i] == d[i - 1]);
                }
            }
        }
        is_ascii_chars_encode_utf8(z);
    }
}

/// A fire split off from another is one generation further than it.
pub proof fn lemma_child_fire_generation(parent: Seq<char>, child_num: nat)
    requires
        child_num < 100,
        encode_utf8(parent).len() >= 6,
    ensures
        generations(parent + zero_padded_decimal(child_num, 2)) == generations(parent) + 1,
{
    lemma_encode_concat(parent, zero_padded_decimal(child_num, 2));
    lemma_two_digits_bytes(child_num);
}

/// Different fire numbers give different codes: no two fires share a code.
pub proof fn lemma_fire_codes_distinct(a: nat, b: nat)
    requires
        a != b,
    ensures
        zero_padded_decimal(a, 6) != zero_padded_decimal(b, 6),
{
    lemma_zero_padded_value(a, 6);
    lemma_zero_padded_value(b, 6);
}

/// The identification code of a fire: six digits for a fire that started on its own, followed
/// by two more digits for each generation of fires it split off from.
#[derive(Debug, Clone)]
pub struct FireCode(pub String);

impl View for FireCode {
    type V = Seq<char>;

    open spec fn view(&self) -> Seq<char> {
        self.0@
    }
}

impl FireCode {
    /// The code as a string.
    pub fn as_str(&self) -> (r: &str)
        ensures
            r@ == self@,
    {
        self.0.as_str()
    }

    /// The code of the `child_num`-th fire that split off from this one: this code followed by
    /// `child_num` in two digits.
    pub fn make_child_fire(&self, child_num: u32) -> (r: FireCode)
        requires
            child_num < 100,
        ensures
            r@ == self@ + zero_padded_decimal(child_num as nat, 2),
    {
        let mut s = self.0.clone();
        append_zero_padded(&mut s, child_num as u64, 2);
        FireCode(s)
    }

    /// The number of generations in this code: one for the six digits of the original fire, and
    /// one for every further two bytes.
    pub fn num_generations(&self) -> (r: usize)
        requires
            encode_utf8(self@).len() >= 6,
        ensures
            r == generations(self@),
    {
        let s = self.0.as_str();
        assert(s.spec_bytes() == encode_utf8(self@));
        (s.as_bytes().len() - 6) / 2 + 1
    }
}

/// The number that the next new fire will be given.
pub struct FireDataNextNewFireState {
    next_id_num: u32,
}

/// The largest fire number that fits in the six digits of a fire code.
pub const MAX_FIRE_NUMBER: u32 = 999_999;

impl FireDataNextNewFireState {
    /// Start allocating fire numbers at `next_id_num`.
    pub fn starting_at(next_id_num: u32) -> (r: Self)
        ensures
            r.next_id() == next_id_num,
    {
        FireDataNextNewFireState { next_id_num }
    }

    /// The number the next new fire will be given.
    pub closed spec fn next_id(&self) -> u32 {
        self.next_id_num
    }

    /// Allocate the code of the next new fire: the next number in six zero-padded digits, or an
    /// error once the numbers no longer fit in six digits. The number advances either way.
    pub fn get_next_fire_id(&mut self) -> (r: Result<FireCode, ConnectFireError>)
        requires
            old(self).next_id() < u32::MAX,
        ensures
            final(self).next_id() == old(self).next_id() + 1,
            old(self).next_id() <= MAX_FIRE_NUMBER ==> (r matches Ok(code)
                && code@ == zero_padded_decimal(old(self).next_id() as nat, 6)),
            old(self).next_id() > MAX_FIRE_NUMBER ==> (r matches Err(e)
                && e.msg@ == "Too many fires for satfire"@),
    {
        let val_to_return = self.next_id_num;
        self.next_id_num = self.next_id_num + 1;

        if val_to_return <= MAX_FIRE_NUMBER {
            let mut s = String::new();
            append_zero_padded(&mut s, val_to_return as u64, 6);
            Ok(FireCode(s))
        } else {
            Err(ConnectFireError { msg: "Too many fires for satfire" })
        }
    }
}

} // verus!

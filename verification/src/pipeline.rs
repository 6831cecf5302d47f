//! The hash layout: assembly on the encode path, parsing and validation
//! on the decode path.
//!
//! A hash is one size-flag character, one dynamic-range character, four
//! DC characters and two characters per AC term, in grid order, so its
//! length is always `4 + 2 * x * y` for an `x` by `y` component grid.
use vstd::prelude::*;
use vstd::arithmetic::div_mod::lemma_fundamental_div_mod_converse_div;
use vstd::arithmetic::div_mod::lemma_fundamental_div_mod_converse_mod;
use vstd::string::StrSliceExecFns;
use vstd::string::StringExecFns;
use crate::base83::base83_index;
use crate::base83::decode_base83_str;
use crate::base83::encode_base83;
use crate::base83::is_base83_char;
use crate::base83::lemma_base83_round_trip;
use crate::base83::lemma_decode83_bound;
use crate::base83::lemma_encode83_chars_valid;
use crate::base83::lemma_encode83_single;
use crate::base83::pow83;
use crate::base83::spec_decode83;
use crate::base83::spec_encode83;
use crate::base83::spec_index83;
use crate::BlurHashError;

verus! {

/// The size flag packed into the first hash character:
/// `(x - 1) + (y - 1) * 9`.
pub open spec fn spec_size_flag(x: nat, y: nat) -> int {
    (x - 1) + (y - 1) * 9
}

/// The characters of the AC terms, two per term, in grid order.
pub open spec fn spec_ac_chars(ac: Seq<u32>) -> Seq<char>
    decreases ac.len(),
{
    if ac.len() == 0 {
        Seq::<char>::empty()
    } else {
        spec_ac_chars(ac.drop_last()) + spec_encode83(ac.last() as nat, 2)
    }
}

/// The whole hash assembled from its quantised parts.
pub open spec fn spec_assemble(x: nat, y: nat, qmax: nat, dc: nat, ac: Seq<u32>) -> Seq<char> {
    spec_encode83(spec_size_flag(x, y) as nat, 1) + spec_encode83(qmax, 1) + spec_encode83(dc, 4)
        + spec_ac_chars(ac)
}

/// The horizontal component count a hash declares in its first character.
pub open spec fn spec_x_components(s: Seq<char>) -> int {
    spec_index83(s[0]) % 9 + 1
}

/// The vertical component count a hash declares in its first character.
pub open spec fn spec_y_components(s: Seq<char>) -> int {
    spec_index83(s[0]) / 9 + 1
}

/// Every character lies in the 83-character alphabet.
pub open spec fn hash_chars_valid(s: Seq<char>) -> bool {
    forall|i: int| 0 <= i < s.len() ==> is_base83_char(#[trigger] s[i])
}

/// The length matches the component counts the size flag declares.
pub open spec fn hash_length_valid(s: Seq<char>) -> bool {
    &&& s.len() >= 1
    &&& is_base83_char(s[0])
    &&& s.len() == 4 + 2 * (spec_x_components(s) * spec_y_components(s))
}

/// A hash the decode path accepts: consistent length and alphabet
/// characters throughout.
pub open spec fn hash_well_formed(s: Seq<char>) -> bool {
    hash_length_valid(s) && hash_chars_valid(s)
}

/// The AC characters are two per term.
pub proof fn lemma_ac_chars_len(ac: Seq<u32>)
    ensures
        spec_ac_chars(ac).len() == 2 * ac.len(),
    decreases ac.len(),
{
    if ac.len() > 0 {
        lemma_ac_chars_len(ac.drop_last());
    }
}

/// Component counts outside `[1, 9]` are rejected, and nothing else is:
/// the range check on the encode path.
pub fn validate_components(x_components: u32, y_components: u32) -> (r: Result<
    (),
    BlurHashError,
>)
    ensures
        match r {
            Result::Ok(()) => 1 <= x_components <= 9 && 1 <= y_components <= 9,
            Result::Err(e) => {
                &&& e == BlurHashError::InvalidComponentRange
                &&& !(1 <= x_components <= 9 && 1 <= y_components <= 9)
            },
        },
{
    if x_components < 1 || x_components > 9 || y_components < 1 || y_components > 9 {
        Result::Err(BlurHashError::InvalidComponentRange)
    } else {
        Result::Ok(())
    }
}

/// Concatenates the size flag, the quantised maximum, the DC term and the
/// AC terms into the hash string.  The result is exactly the assembly of
/// the given parts, and its length obeys the length law
/// `4 + 2 * x * y`.
pub fn assemble_hash(
    x_components: u32,
    y_components: u32,
    quantised_max: u8,
    dc: u32,
    ac: &Vec<u32>,
) -> (hash: String)
    requires
        1 <= x_components <= 9,
        1 <= y_components <= 9,
        quantised_max <= 82,
        dc < 16777216,
        ac@.len() == x_components * y_components - 1,
    ensures
        hash@ == spec_assemble(
            x_components as nat,
            y_components as nat,
            quantised_max as nat,
            dc as nat,
            ac@,
        ),
        hash@.len() == 4 + 2 * (x_components * y_components),
{
    let flag: u32 = (x_components - 1) + (y_components - 1) * 9;
    let mut hash = encode_base83(flag, 1);
    let qm = encode_base83(quantised_max as u32, 1);
    hash.append(qm.as_str());
    let dcs = encode_base83(dc, 4);
    hash.append(dcs.as_str());
    let ghost head = spec_encode83(
        spec_size_flag(x_components as nat, y_components as nat) as nat,
        1,
    ) + spec_encode83(quantised_max as nat, 1) + spec_encode83(dc as nat, 4);
    let mut i: usize = 0;
    while i < ac.len()
        invariant
            i <= ac@.len(),
            hash@ == head + spec_ac_chars(ac@.subrange(0, i as int)),
        decreases ac@.len() - i,
    {
        let term = encode_base83(ac[i], 2);
        hash.append(term.as_str());
        proof {
            let sub = ac@.subrange(0, (i + 1) as int);
            assert(sub.drop_last() =~= ac@.subrange(0, i as int));
            assert(sub.last() == ac@[i as int]);
            assert(hash@ =~= head + spec_ac_chars(sub));
        }
        i = i + 1;
    }
    proof {
        assert(ac@.subrange(0, ac@.len() as int) =~= ac@);
        lemma_ac_chars_len(ac@);
    }
    hash
}

/// The parts a hash string decomposes into before any arithmetic on
/// colours happens.
#[derive(Debug, PartialEq, Eq)]
pub struct HashParts {
    /// Horizontal component count, from the size flag.
    pub x_components: u32,
    /// Vertical component count, from the size flag.
    pub y_components: u32,
    /// The shared dynamic-range value, from the second character.
    pub quantised_max: u8,
    /// The packed DC term, from four characters.
    pub dc: u32,
    /// The packed AC terms, two characters each, in grid order.
    pub ac: Vec<u32>,
}

/// Splits a hash string into its parts.  A string of the wrong length,
/// or with any character outside the alphabet, is rejected as
/// `MalformedHash` and nothing is decoded; every acceptable string is
/// split, and the parts are exactly what its characters denote.
pub fn parse_hash(hash: &String) -> (r: Result<HashParts, BlurHashError>)
    ensures
        match r {
            Result::Ok(parts) => {
                &&& hash_well_formed(hash@)
                &&& parts.x_components as int == spec_x_components(hash@)
                &&& parts.y_components as int == spec_y_components(hash@)
                &&& 1 <= parts.x_components <= 9
                &&& 1 <= parts.y_components <= 10
                &&& parts.quantised_max as int == spec_index83(hash@[1])
                &&& parts.quantised_max < 83
                &&& parts.dc as int == spec_decode83(hash@.subrange(2, 6))
                &&& parts.dc < 47458321
                &&& parts.ac@.len() == parts.x_components * parts.y_components - 1
                &&& forall|i: int|
                    0 <= i < parts.ac@.len() ==> (#[trigger] parts.ac@[i]) as int
                        == spec_decode83(hash@.subrange(6 + 2 * i, 8 + 2 * i))
                &&& forall|i: int| 0 <= i < parts.ac@.len() ==> #[trigger] parts.ac@[i] < 6889
            },
            Result::Err(e) => {
                &&& e == BlurHashError::MalformedHash
                &&& !hash_well_formed(hash@)
            },
        },
{
    let len = hash.as_str().unicode_len();
    if len < 1 {
        return Result::Err(BlurHashError::MalformedHash);
    }
    let c0 = hash.as_str().get_char(0);
    let flag: u8 = match base83_index(c0) {
        Option::Some(d) => d,
        Option::None => {
            return Result::Err(BlurHashError::MalformedHash);
        },
    };
    let x_components: u32 = (flag as u32) % 9 + 1;
    let y_components: u32 = (flag as u32) / 9 + 1;
    proof {
        assert((flag as u32) % 9 < 9) by (nonlinear_arith);
        assert((flag as u32) / 9 < 10) by (nonlinear_arith)
            requires
                flag < 83,
        ;
    }
    proof {
        assert(1 <= x_components * y_components <= 90) by (nonlinear_arith)
            requires
                1 <= x_components <= 9,
                1 <= y_components <= 10,
        ;
    }
    let count: u32 = x_components * y_components;
    let expected: usize = (4 + 2 * count) as usize;
    if len != expected {
        return Result::Err(BlurHashError::MalformedHash);
    }
    let mut i: usize = 1;
    while i < len
        invariant
            len == hash@.len(),
            1 <= i <= len,
            is_base83_char(hash@[0]),
            forall|j: int| 0 <= j < i ==> is_base83_char(#[trigger] hash@[j]),
        decreases len - i,
    {
        if base83_index(hash.as_str().get_char(i)).is_none() {
            return Result::Err(BlurHashError::MalformedHash);
        }
        i = i + 1;
    }
    let c1 = hash.as_str().get_char(1);
    let quantised_max: u8 = match base83_index(c1) {
        Option::Some(d) => d,
        Option::None => {
            proof {
                assert(is_base83_char(hash@[1]));
            }
            vstd::pervasive::unreached()
        },
    };
    let dc_str = hash.as_str().substring_char(2, 6);
    proof {
        assert forall|j: int| 0 <= j < dc_str@.len() implies is_base83_char(
            #[trigger] dc_str@[j],
        ) by {
            assert(dc_str@[j] == hash@[2 + j]);
        }
    }
    let dc = decode_base83_str(dc_str);
    proof {
        lemma_decode83_bound(dc_str@);
        assert(pow83(4) == 47458321) by {
            reveal_with_fuel(pow83, 5);
        }
    }
    let mut ac: Vec<u32> = Vec::new();
    let mut t: u32 = 1;
    while t < count
        invariant
            1 <= t <= count,
            count == x_components * y_components,
            count <= 90,
            len == hash@.len(),
            len == 4 + 2 * count,
            hash_chars_valid(hash@),
            ac@.len() == t - 1,
            forall|k: int|
                0 <= k < ac@.len() ==> (#[trigger] ac@[k]) as int == spec_decode83(
                    hash@.subrange(6 + 2 * k, 8 + 2 * k),
                ),
            forall|k: int| 0 <= k < ac@.len() ==> #[trigger] ac@[k] < 6889,
        decreases count - t,
    {
        let start: usize = (4 + 2 * t) as usize;
        let piece = hash.as_str().substring_char(start, start + 2);
        proof {
            assert forall|j: int| 0 <= j < piece@.len() implies is_base83_char(
                #[trigger] piece@[j],
            ) by {
                assert(piece@[j] == hash@[start + j]);
            }
        }
        let v = decode_base83_str(piece);
        proof {
            lemma_decode83_bound(piece@);
            assert(pow83(2) == 6889) by {
                reveal_with_fuel(pow83, 3);
            }
            assert(piece@ =~= hash@.subrange(6 + 2 * (t - 1), 8 + 2 * (t - 1)));
        }
        ac.push(v);
        t = t + 1;
    }
    Result::Ok(
        HashParts {
            x_components,
            y_components,
            quantised_max,
            dc,
            ac,
        },
    )
}

/// Whether a hash string starts with an alphabet character and has the
/// length its size flag declares.  This is the length side of
/// well-formedness; the decode path checks the remaining characters too.
pub fn validate(hash: &String) -> (r: bool)
    ensures
        r == hash_length_valid(hash@),
{
    let len = hash.as_str().unicode_len();
    if len < 1 {
        return false;
    }
    let c0 = hash.as_str().get_char(0);
    let flag: u8 = match base83_index(c0) {
        Option::Some(d) => d,
        Option::None => {
            return false;
        },
    };
    let x_components: u32 = (flag as u32) % 9 + 1;
    let y_components: u32 = (flag as u32) / 9 + 1;
    proof {
        assert((flag as u32) % 9 < 9) by (nonlinear_arith);
        assert((flag as u32) / 9 < 10) by (nonlinear_arith)
            requires
                flag < 83,
        ;
        assert(1 <= x_components * y_components <= 90) by (nonlinear_arith)
            requires
                1 <= x_components <= 9,
                1 <= y_components <= 10,
        ;
    }
    let expected: usize = (4 + 2 * (x_components * y_components)) as usize;
    len == expected
}

/// Every AC character lies in the alphabet.
pub proof fn lemma_ac_chars_valid(ac: Seq<u32>)
    ensures
        hash_chars_valid(spec_ac_chars(ac)),
    decreases ac.len(),
{
    if ac.len() > 0 {
        lemma_ac_chars_valid(ac.drop_last());
        lemma_encode83_chars_valid(ac.last() as nat, 2);
        lemma_ac_chars_len(ac.drop_last());
        let whole = spec_ac_chars(ac);
        let pre = spec_ac_chars(ac.drop_last());
        assert forall|i: int| 0 <= i < whole.len() implies is_base83_char(#[trigger] whole[i]) by {
            if i >= pre.len() {
                assert(whole[i] == spec_encode83(ac.last() as nat, 2)[i - pre.len()]);
            }
        }
    }
}

/// The two characters of the `i`-th AC term are its own encoding.
pub proof fn lemma_ac_chars_index(ac: Seq<u32>, i: int)
    requires
        0 <= i < ac.len(),
    ensures
        spec_ac_chars(ac).subrange(2 * i, 2 * i + 2) =~= spec_encode83(ac[i] as nat, 2),
    decreases ac.len(),
{
    lemma_ac_chars_len(ac);
    lemma_ac_chars_len(ac.drop_last());
    let whole = spec_ac_chars(ac);
    let pre = spec_ac_chars(ac.drop_last());
    if i == ac.len() - 1 {
        assert forall|j: int| 0 <= j < 2 implies whole.subrange(2 * i, 2 * i + 2)[j]
            == spec_encode83(ac[i] as nat, 2)[j] by {
            assert(whole[2 * i + j] == spec_encode83(ac.last() as nat, 2)[2 * i + j - pre.len()]);
        }
    } else {
        lemma_ac_chars_index(ac.drop_last(), i);
        assert forall|j: int| 0 <= j < 2 implies whole.subrange(2 * i, 2 * i + 2)[j]
            == spec_encode83(ac[i] as nat, 2)[j] by {
            assert(whole[2 * i + j] == pre[2 * i + j]);
            assert(pre[2 * i + j] == pre.subrange(2 * i, 2 * i + 2)[j]);
            assert(ac.drop_last()[i] == ac[i]);
        }
    }
}

/// The verified half of the round trip between the two pipelines: a hash
/// assembled from valid quantised parts is well formed, and parsing it
/// recovers exactly those parts.
pub proof fn lemma_assemble_parse_round_trip(x: nat, y: nat, qmax: nat, dc: nat, ac: Seq<u32>)
    requires
        1 <= x <= 9,
        1 <= y <= 9,
        qmax <= 82,
        dc < 16777216,
        ac.len() == x * y - 1,
        forall|i: int| 0 <= i < ac.len() ==> #[trigger] ac[i] < 6889,
    ensures
        hash_well_formed(spec_assemble(x, y, qmax, dc, ac)),
        spec_x_components(spec_assemble(x, y, qmax, dc, ac)) == x,
        spec_y_components(spec_assemble(x, y, qmax, dc, ac)) == y,
        spec_index83(spec_assemble(x, y, qmax, dc, ac)[1]) == qmax,
        spec_decode83(spec_assemble(x, y, qmax, dc, ac).subrange(2, 6)) == dc,
        forall|i: int|
            0 <= i < ac.len() ==> spec_decode83(
                spec_assemble(x, y, qmax, dc, ac).subrange(6 + 2 * i, 8 + 2 * i),
            ) == #[trigger] ac[i],
{
    let s = spec_assemble(x, y, qmax, dc, ac);
    let flag = spec_size_flag(x, y);
    assert(0 <= flag < 81);
    lemma_encode83_single(flag as nat);
    lemma_encode83_single(qmax);
    lemma_ac_chars_len(ac);
    assert(s[0] == spec_encode83(flag as nat, 1)[0]);
    assert(spec_index83(s[0]) == flag);
    lemma_fundamental_div_mod_converse_mod(flag, 9, y - 1, x - 1);
    lemma_fundamental_div_mod_converse_div(flag, 9, y - 1, x - 1);
    assert(spec_x_components(s) == x);
    assert(spec_y_components(s) == y);
    assert(s[1] == spec_encode83(qmax, 1)[0]);
    assert(s.len() == 4 + 2 * (x * y));
    assert(s.subrange(2, 6) =~= spec_encode83(dc, 4));
    assert(pow83(4) == 47458321) by {
        reveal_with_fuel(pow83, 5);
    }
    lemma_base83_round_trip(dc, 4);
    lemma_encode83_chars_valid(dc, 4);
    lemma_ac_chars_valid(ac);
    assert forall|i: int| 0 <= i < s.len() implies is_base83_char(#[trigger] s[i]) by {
        if i >= 6 {
            assert(s[i] == spec_ac_chars(ac)[i - 6]);
        } else if i >= 2 {
            assert(s[i] == spec_encode83(dc, 4)[i - 2]);
        }
    }
    assert(pow83(2) == 6889) by {
        reveal_with_fuel(pow83, 3);
    }
    assert forall|i: int| 0 <= i < ac.len() implies spec_decode83(
        s.subrange(6 + 2 * i, 8 + 2 * i),
    ) == #[trigger] ac[i] by {
        lemma_ac_chars_index(ac, i);
        assert(s.subrange(6 + 2 * i, 8 + 2 * i) =~= spec_ac_chars(ac).subrange(2 * i, 2 * i + 2));
        lemma_base83_round_trip(ac[i] as nat, 2);
    }
}

/// Determinism: the hash is a function of the quantised parts alone, so
/// equal parts assemble to the identical character sequence, however the
/// work that produced them was scheduled.
pub proof fn lemma_assemble_deterministic(
    x1: nat,
    y1: nat,
    qmax1: nat,
    dc1: nat,
    ac1: Seq<u32>,
    x2: nat,
    y2: nat,
    qmax2: nat,
    dc2: nat,
    ac2: Seq<u32>,
)
    requires
        x1 == x2,
        y1 == y2,
        qmax1 == qmax2,
        dc1 == dc2,
        ac1 == ac2,
    ensures
        spec_assemble(x1, y1, qmax1, dc1, ac1) == spec_assemble(x2, y2, qmax2, dc2, ac2),
{
}

/// A 1-by-1 grid has no AC terms: its hash is the size flag, the
/// quantised maximum and the four DC characters, six characters and
/// nothing more.
pub proof fn lemma_one_by_one_hash_has_no_ac(qmax: nat, dc: nat)
    ensures
        spec_assemble(1, 1, qmax, dc, Seq::<u32>::empty()) =~= spec_encode83(0, 1)
            + spec_encode83(qmax, 1) + spec_encode83(dc, 4),
        spec_assemble(1, 1, qmax, dc, Seq::<u32>::empty()).len() == 6,
{
    assert(spec_size_flag(1, 1) == 0);
    assert(spec_ac_chars(Seq::<u32>::empty()) =~= Seq::<char>::empty());
}

} // verus!

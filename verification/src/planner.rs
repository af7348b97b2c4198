use vstd::prelude::*;

use crate::cube::{identity_order, is_axis_order, to_int_seq};
use crate::errors::RotateError;
use crate::header::{spec_axis_lookup, AxisKeyStub, Header};
use crate::index_map::fits_index_to_array_index;
use vstd::pervasive::unreached;

verus! {

/// A decimal digit character.
pub open spec fn is_digit_char(c: char) -> bool {
    48 <= c as u32 <= 57
}

/// Numeric value of a digit character.
pub open spec fn digit_value(c: char) -> int {
    c as u32 - 48
}

/// Every character of `s` is a decimal digit.
pub open spec fn all_digits(s: Seq<char>) -> bool {
    forall|i: int| 0 <= i < s.len() ==> is_digit_char(#[trigger] s[i])
}

/// The numbers spelled by a digit string, one per character.
pub open spec fn digit_values(s: Seq<char>) -> Seq<int> {
    s.map_values(|c: char| digit_value(c))
}

/// `v` lists every file-axis number `1..=naxis` exactly once.
pub open spec fn is_file_axis_perm(v: Seq<int>, naxis: nat) -> bool {
    &&& v.len() == naxis
    &&& forall|k: int| 0 <= k < naxis ==> 1 <= #[trigger] v[k] <= naxis
    &&& forall|k1: int, k2: int|
        0 <= k1 < naxis && 0 <= k2 < naxis && v[k1] == v[k2] ==> k1 == k2
    &&& forall|m: int| 1 <= m <= naxis ==> #[trigger] v.contains(m)
}

/// Position of the first character that is not a decimal digit (the
/// string's length when all are).
pub open spec fn first_non_digit(s: Seq<char>) -> int
    decreases s.len(),
{
    if s.len() == 0 {
        0
    } else if !is_digit_char(s[0]) {
        0
    } else {
        1 + first_non_digit(s.drop_first())
    }
}

/// A character known not to be a digit, behind only digits, is the first
/// non-digit.
proof fn lemma_first_non_digit(s: Seq<char>, i: int)
    requires
        0 <= i < s.len(),
        !is_digit_char(s[i]),
        forall|j: int| 0 <= j < i ==> is_digit_char(#[trigger] s[j]),
    ensures
        first_non_digit(s) == i,
    decreases i,
{
    if i > 0 {
        let t = s.drop_first();
        assert forall|j: int| 0 <= j < i - 1 implies is_digit_char(#[trigger] t[j]) by {
            assert(t[j] == s[j + 1]);
        }
        assert(t[i - 1] == s[i]);
        lemma_first_non_digit(t, i - 1);
    }
}

/// An explicit axis-order specification is acceptable: one digit per axis,
/// listing every file axis exactly once.
pub open spec fn explicit_spec_valid(s: Seq<char>, naxis: nat) -> bool {
    &&& s.len() == naxis
    &&& all_digits(s)
    &&& is_file_axis_perm(digit_values(s), naxis)
}

/// The error an unacceptable explicit specification is rejected with:
/// wrong length, then a non-digit character, then a digit list that is not
/// a permutation — in that order of checks.
pub open spec fn explicit_spec_error(s: Seq<char>, naxis: nat) -> RotateError {
    if s.len() != naxis {
        RotateError::ModeLengthMismatch(naxis as usize, s.len() as usize)
    } else if !all_digits(s) {
        RotateError::ModeParseError(s[first_non_digit(s)])
    } else {
        RotateError::InvalidPermutation
    }
}

/// The file-axis number `m` occurs among the first `k` entries of `v`.
pub open spec fn appears_before(v: Seq<usize>, m: int, k: int) -> bool {
    exists|k2: int| 0 <= k2 < k && (#[trigger] v[k2]) as int == m
}

/// Checks that `v` lists every file-axis number `1..=naxis` exactly once.
fn check_file_axis_perm(v: &Vec<usize>, naxis: usize) -> (r: bool)
    requires
        v@.len() == naxis,
    ensures
        r == is_file_axis_perm(to_int_seq(v@), naxis as nat),
{
    let ghost vi = to_int_seq(v@);
    let mut seen: Vec<bool> = Vec::new();
    for b in 0..naxis
        invariant
            seen@.len() == b,
            forall|b2: int| 0 <= b2 < b ==> !(#[trigger] seen@[b2]),
    {
        seen.push(false);
    }
    for k in 0..naxis
        invariant
            naxis == v@.len(),
            vi == to_int_seq(v@),
            seen@.len() == naxis,
            forall|k2: int| 0 <= k2 < k ==> 1 <= (#[trigger] v@[k2]) as int <= naxis,
            forall|k1: int, k2: int|
                0 <= k1 < k && 0 <= k2 < k && k1 != k2 ==> v@[k1] != v@[k2],
            forall|b: int|
                0 <= b < naxis ==> ((#[trigger] seen@[b]) <==> appears_before(v@, b + 1, k as int)),
    {
        let m = v[k];
        if m < 1 || m > naxis {
            proof {
                assert(!(1 <= vi[k as int] <= naxis));
            }
            return false;
        }
        if seen[m - 1] {
            proof {
                let k2 = choose|k2: int| 0 <= k2 < k && (#[trigger] v@[k2]) as int == m as int;
                assert(vi[k2] == vi[k as int]);
                assert(!is_file_axis_perm(vi, naxis as nat));
            }
            return false;
        }
        seen[m - 1] = true;
        proof {
            assert forall|b: int|
                0 <= b < naxis implies ((#[trigger] seen@[b]) <==> appears_before(
                v@,
                b + 1,
                k + 1,
            )) by {
                if b == m - 1 {
                    assert(v@[k as int] as int == b + 1);
                } else {
                    if appears_before(v@, b + 1, k + 1) {
                        let k2 = choose|k2: int|
                            0 <= k2 < k + 1 && (#[trigger] v@[k2]) as int == b + 1;
                        assert(k2 < k as int);
                        assert(appears_before(v@, b + 1, k as int));
                    }
                    if appears_before(v@, b + 1, k as int) {
                        let k2 = choose|k2: int|
                            0 <= k2 < k && (#[trigger] v@[k2]) as int == b + 1;
                        assert(0 <= k2 < k + 1 && v@[k2] as int == b + 1);
                    }
                }
            }
        }
    }
    let mut b: usize = 0;
    while b < naxis
        invariant
            b <= naxis,
            naxis == v@.len(),
            vi == to_int_seq(v@),
            seen@.len() == naxis,
            forall|k2: int| 0 <= k2 < naxis ==> 1 <= (#[trigger] v@[k2]) as int <= naxis,
            forall|k1: int, k2: int|
                0 <= k1 < naxis && 0 <= k2 < naxis && k1 != k2 ==> v@[k1] != v@[k2],
            forall|b2: int|
                0 <= b2 < naxis ==> ((#[trigger] seen@[b2]) <==> appears_before(
                    v@,
                    b2 + 1,
                    naxis as int,
                )),
            forall|b2: int| 0 <= b2 < b ==> #[trigger] seen@[b2],
        decreases naxis - b,
    {
        if !seen[b] {
            proof {
                assert(!appears_before(v@, b + 1, naxis as int));
                assert(!vi.contains(b + 1)) by {
                    if vi.contains(b + 1) {
                        let k2 = choose|k2: int| 0 <= k2 < vi.len() && vi[k2] == b + 1;
                        assert(v@[k2] as int == b + 1);
                        assert(appears_before(v@, b + 1, naxis as int));
                    }
                }
                assert(1 <= b + 1 <= naxis);
            }
            return false;
        }
        b = b + 1;
    }
    proof {
        assert forall|m: int| 1 <= m <= naxis implies #[trigger] vi.contains(m) by {
            assert(seen@[m - 1]);
            assert(appears_before(v@, m, naxis as int));
            let k2 = choose|k2: int| 0 <= k2 < naxis && (#[trigger] v@[k2]) as int == m;
            assert(vi[k2] == m);
        }
        assert forall|k1: int, k2: int|
            0 <= k1 < naxis && 0 <= k2 < naxis && vi[k1] == vi[k2] implies k1 == k2 by {
            assert(v@[k1] as int == vi[k1] && v@[k2] as int == vi[k2]);
        }
    }
    true
}

/// Parses an explicit axis-order specification: one decimal digit per axis.
/// The string must have exactly `naxis` characters, all digits, and the
/// digits must list every file axis `1..=naxis` exactly once; each
/// violation is reported as its own error kind. How the listing drives the
/// data and the header keys is [`plan_rotation`]'s business.
pub fn parse_mode(mode: &str, naxis: usize) -> (r: Result<Vec<usize>, RotateError>)
    ensures
        explicit_spec_valid(mode@, naxis as nat) ==> (r matches Ok(v) && to_int_seq(v@)
            == digit_values(mode@)),
        !explicit_spec_valid(mode@, naxis as nat) ==> (r matches Err(e) && e
            == explicit_spec_error(mode@, naxis as nat)),
{
    let len = mode.unicode_len();
    if len != naxis {
        return Err(RotateError::ModeLengthMismatch(naxis, len));
    }
    let mut v: Vec<usize> = Vec::new();
    for i in 0..len
        invariant
            len == mode@.len(),
            len == naxis,
            v@.len() == i,
            forall|j: int| 0 <= j < i ==> is_digit_char(#[trigger] mode@[j]),
            forall|j: int| 0 <= j < i ==> (#[trigger] v@[j]) as int == digit_value(mode@[j]),
    {
        let c = mode.get_char(i);
        let u = c as u32;
        if u < 48 || u > 57 {
            proof {
                lemma_first_non_digit(mode@, i as int);
            }
            return Err(RotateError::ModeParseError(c));
        }
        v.push((u - 48) as usize);
    }
    proof {
        assert(to_int_seq(v@) =~= digit_values(mode@));
    }
    if !check_file_axis_perm(&v, naxis) {
        return Err(RotateError::InvalidPermutation);
    }
    Ok(v)
}

/// What the caller wants done with the axes: an explicit new order, spelled
/// as one digit per axis, or relocation of the axis whose type key holds
/// the given value.
#[derive(Debug)]
pub enum RotateMode {
    Explicit(String),
    AutoDetect(String),
}

/// A validated rotation: how to reorder the in-memory array, and how to
/// renumber the per-axis header keys. The two describe the same rotation in
/// the two numbering conventions.
#[derive(Debug)]
pub struct RotationPlan {
    /// New storage-order axis `k` is old storage-order axis `array_order[k]`.
    pub array_order: Vec<usize>,
    /// Old file axis `o` becomes new file axis `file_map[o - 1]`.
    pub file_map: Vec<usize>,
}

/// Storage-order axis order derived from an explicit file-axis listing `d`:
/// each requested file-axis number, translated to its array position.
pub open spec fn explicit_array_order(d: Seq<int>, naxis: nat) -> Seq<usize> {
    Seq::new(naxis, |k: int| (naxis - d[k]) as usize)
}

/// The explicit listing that leaves the data untouched is the one naming,
/// at each storage slot, the file axis already stored there: `naxis - k` at
/// position `k` (for three axes, the digit string `321`). Translated axis
/// by axis through the index rule it becomes the identity array order; the
/// listing `1, 2, …, naxis` instead reverses the storage order.
pub proof fn lemma_own_slot_listing_is_identity(naxis: nat)
    ensures
        explicit_array_order(Seq::new(naxis, |k: int| naxis - k), naxis) == identity_order(naxis),
{
    assert(explicit_array_order(Seq::new(naxis, |k: int| naxis - k), naxis) =~= identity_order(
        naxis,
    ));
}

/// Storage-order axis order that moves array position `a` to the last slot
/// and closes the gap, keeping all other axes in their relative order.
pub open spec fn relocate_last_order(naxis: nat, a: int) -> Seq<usize> {
    Seq::new(
        naxis,
        |k: int|
            if k == naxis - 1 {
                a as usize
            } else if k < a {
                k as usize
            } else {
                (k + 1) as usize
            },
    )
}

/// File-axis renumbering that exchanges file axes `1` and `i` and leaves
/// every other axis its number: position `o - 1` holds the new number of
/// old file axis `o`.
pub open spec fn swap_file_map(naxis: nat, i: int) -> Seq<usize> {
    Seq::new(
        naxis,
        |o: int|
            if o == 0 {
                i as usize
            } else if o == i - 1 {
                1 as usize
            } else {
                (o + 1) as usize
            },
    )
}

/// `i` is the first file axis whose type key holds `t`: every earlier type
/// key is present and holds something else.
pub open spec fn is_first_type_match(cards: Seq<crate::header::Card>, naxis: int, t: Seq<char>, i: int) -> bool {
    &&& 1 <= i <= naxis
    &&& spec_axis_lookup(cards, AxisKeyStub::CType, i) == Some(t)
    &&& forall|i2: int|
        1 <= i2 < i ==> ((#[trigger] spec_axis_lookup(cards, AxisKeyStub::CType, i2)) matches Some(
            v,
        ) && v != t)
}

/// The type key of file axis `i` is absent, and the search reaches `i`:
/// every earlier type key is present and does not hold `t`.
pub open spec fn is_first_type_gap(cards: Seq<crate::header::Card>, naxis: int, t: Seq<char>, i: int) -> bool {
    &&& 1 <= i <= naxis
    &&& spec_axis_lookup(cards, AxisKeyStub::CType, i) is None
    &&& forall|i2: int|
        1 <= i2 < i ==> ((#[trigger] spec_axis_lookup(cards, AxisKeyStub::CType, i2)) matches Some(
            v,
        ) && v != t)
}

/// Every type key is present and none holds `t`.
pub open spec fn no_type_match(cards: Seq<crate::header::Card>, naxis: int, t: Seq<char>) -> bool {
    forall|i: int|
        1 <= i <= naxis ==> ((#[trigger] spec_axis_lookup(cards, AxisKeyStub::CType, i)) matches Some(
            v,
        ) && v != t)
}

/// Searches the type keys of file axes `1..=naxis`, in ascending order, for
/// the first one holding `target`. A key absent before any match stops the
/// search; a search that exhausts all axes reports the value as not found,
/// recoverably.
pub fn find_designated_axis(header: &Header, naxis: usize, target: &String) -> (r: Result<
    usize,
    RotateError,
>)
    ensures
        r matches Ok(i) ==> is_first_type_match(header.cards@, naxis as int, target@, i as int),
        forall|i: int|
            is_first_type_match(header.cards@, naxis as int, target@, i) ==> (r matches Ok(j)
                && j as int == i),
        forall|i: int|
            is_first_type_gap(header.cards@, naxis as int, target@, i) ==> (r matches Err(e) && e
                == RotateError::KeyMissing(AxisKeyStub::CType, i as usize)),
        no_type_match(header.cards@, naxis as int, target@) ==> (r matches Err(e) && (e matches
            RotateError::AxisNotFound(s) && s@ == target@)),
{
    for idx in 0..naxis
        invariant
            forall|i2: int|
                1 <= i2 <= idx ==> ((#[trigger] spec_axis_lookup(
                    header.cards@,
                    AxisKeyStub::CType,
                    i2,
                )) matches Some(v) && v != target@),
    {
        let i = idx + 1;
        match header.axis_lookup(AxisKeyStub::CType, i) {
            None => {
                return Err(RotateError::KeyMissing(AxisKeyStub::CType, i));
            },
            Some(v) => {
                if v.eq(target) {
                    return Ok(i);
                }
            },
        }
    }
    Err(RotateError::AxisNotFound(target.clone()))
}

/// Derives the validated rotation plan for a cube of `naxis` axes: parses
/// and validates an explicit specification, or locates the designated axis
/// through the header's type keys and relocates it. The resulting array
/// order is always a valid reordering, and the resulting file-axis map
/// always a permutation of `1..=naxis`.
pub fn plan_rotation(mode: &RotateMode, header: &Header, naxis: usize) -> (r: Result<
    RotationPlan,
    RotateError,
>)
    ensures
        r matches Ok(plan) ==> {
            &&& is_axis_order(plan.array_order@, naxis as nat)
            &&& is_file_axis_perm(to_int_seq(plan.file_map@), naxis as nat)
        },
        mode matches RotateMode::Explicit(m) ==> {
            &&& explicit_spec_valid(m@, naxis as nat) ==> (r matches Ok(plan)
                && plan.array_order@ == explicit_array_order(digit_values(m@), naxis as nat)
                && to_int_seq(plan.file_map@) == digit_values(m@))
            &&& !explicit_spec_valid(m@, naxis as nat) ==> (r matches Err(e) && e
                == explicit_spec_error(m@, naxis as nat))
        },
        mode matches RotateMode::AutoDetect(t) ==> {
            &&& forall|i: int|
                is_first_type_match(header.cards@, naxis as int, t@, i) ==> (r matches Ok(plan)
                    && plan.array_order@ == relocate_last_order(naxis as nat, naxis - i)
                    && plan.file_map@ == swap_file_map(naxis as nat, i))
            &&& forall|i: int|
                is_first_type_gap(header.cards@, naxis as int, t@, i) ==> (r matches Err(e) && e
                    == RotateError::KeyMissing(AxisKeyStub::CType, i as usize))
            &&& no_type_match(header.cards@, naxis as int, t@) ==> (r matches Err(e) && (e matches
                RotateError::AxisNotFound(s) && s@ == t@))
        },
{
    match mode {
        RotateMode::Explicit(m) => {
            let v = match parse_mode(m.as_str(), naxis) {
                Ok(v) => v,
                Err(e) => {
                    return Err(e);
                },
            };
            let ghost d = digit_values(m@);
            let mut order: Vec<usize> = Vec::new();
            for k in 0..naxis
                invariant
                    naxis == v@.len(),
                    to_int_seq(v@) == d,
                    is_file_axis_perm(d, naxis as nat),
                    order@.len() == k,
                    forall|k2: int| 0 <= k2 < k ==> (#[trigger] order@[k2]) as int == naxis - d[k2],
            {
                proof {
                    assert(1 <= to_int_seq(v@)[k as int] <= naxis);
                }
                let pos = match fits_index_to_array_index(v[k], naxis) {
                    Ok(pos) => pos,
                    Err(_) => unreached(),
                };
                order.push(pos);
            }
            proof {
                assert(order@ =~= explicit_array_order(d, naxis as nat));
                lemma_explicit_order_valid(d, naxis as nat);
            }
            Ok(RotationPlan { array_order: order, file_map: v })
        },
        RotateMode::AutoDetect(t) => {
            let i = match find_designated_axis(header, naxis, t) {
                Ok(i) => i,
                Err(e) => {
                    return Err(e);
                },
            };
            let a = match fits_index_to_array_index(i, naxis) {
                Ok(pos) => pos,
                Err(_) => unreached(),
            };
            let mut order: Vec<usize> = Vec::new();
            let mut k: usize = 0;
            while k < naxis - 1
                invariant
                    1 <= i <= naxis,
                    a == naxis - i,
                    k <= naxis - 1 || naxis == 0,
                    order@.len() == k,
                    forall|k2: int|
                        0 <= k2 < k ==> (#[trigger] order@[k2]) == relocate_last_order(
                            naxis as nat,
                            a as int,
                        )[k2],
                decreases naxis - k,
            {
                if k < a {
                    order.push(k);
                } else {
                    order.push(k + 1);
                }
                k = k + 1;
            }
            order.push(a);
            let mut fm: Vec<usize> = Vec::new();
            for oi in 0..naxis
                invariant
                    1 <= i <= naxis,
                    fm@.len() == oi,
                    forall|o2: int|
                        0 <= o2 < oi ==> (#[trigger] fm@[o2]) == swap_file_map(
                            naxis as nat,
                            i as int,
                        )[o2],
            {
                let o = oi + 1;
                if o == 1 {
                    fm.push(i);
                } else if o == i {
                    fm.push(1);
                } else {
                    fm.push(o);
                }
            }
            proof {
                assert(order@ =~= relocate_last_order(naxis as nat, a as int));
                assert(fm@ =~= swap_file_map(naxis as nat, i as int));
                lemma_relocate_order_valid(naxis as nat, a as int);
                lemma_swap_file_map_valid(naxis as nat, i as int);
            }
            Ok(RotationPlan { array_order: order, file_map: fm })
        },
    }
}

/// An explicit file-axis listing, translated axis by axis to array
/// positions, is a valid reordering of those positions.
proof fn lemma_explicit_order_valid(d: Seq<int>, naxis: nat)
    requires
        is_file_axis_perm(d, naxis),
        naxis <= usize::MAX,
    ensures
        is_axis_order(explicit_array_order(d, naxis), naxis),
{
    let p = explicit_array_order(d, naxis);
    assert forall|b: usize| b < naxis implies #[trigger] p.contains(b) by {
        let m = naxis - b;
        assert(d.contains(m as int));
        let k = choose|k: int| 0 <= k < d.len() && d[k] == m as int;
        assert(p[k] == b);
        assert(exists|j: int| 0 <= j < p.len() && p[j] == b);
    }
    assert forall|k1: int, k2: int|
        0 <= k1 < naxis && 0 <= k2 < naxis && p[k1] == p[k2] implies k1 == k2 by {
        assert(1 <= d[k1] <= naxis && 1 <= d[k2] <= naxis);
        assert(d[k1] == d[k2]);
    }
}

/// Moving one array position to the last slot is a valid reordering.
proof fn lemma_relocate_order_valid(naxis: nat, a: int)
    requires
        0 <= a < naxis,
        naxis <= usize::MAX,
    ensures
        is_axis_order(relocate_last_order(naxis, a), naxis),
{
    let p = relocate_last_order(naxis, a);
    assert forall|b: usize| b < naxis implies #[trigger] p.contains(b) by {
        if b as int == a {
            assert(p[naxis - 1] == b);
        } else if (b as int) < a {
            assert(p[b as int] == b);
        } else {
            assert(p[b - 1] == b);
        }
        assert(exists|j: int| 0 <= j < p.len() && p[j] == b);
    }
}

/// Exchanging file axes `1` and `i` is a permutation of `1..=naxis`.
proof fn lemma_swap_file_map_valid(naxis: nat, i: int)
    requires
        1 <= i <= naxis,
        naxis <= usize::MAX,
    ensures
        is_file_axis_perm(to_int_seq(swap_file_map(naxis, i)), naxis),
{
    let fm = to_int_seq(swap_file_map(naxis, i));
    assert forall|m: int| 1 <= m <= naxis implies #[trigger] fm.contains(m) by {
        if m == i {
            assert(fm[0] == m);
            assert(exists|j: int| 0 <= j < fm.len() && fm[j] == m);
        } else if m == 1 {
            assert(fm[i - 1] == m);
            assert(exists|j: int| 0 <= j < fm.len() && fm[j] == m);
        } else {
            assert(fm[m - 1] == m);
            assert(exists|j: int| 0 <= j < fm.len() && fm[j] == m);
        }
    }
}

} // verus!

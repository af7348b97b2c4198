use vstd::prelude::*;

use crate::cube::to_int_seq;
use crate::errors::RotateError;

verus! {

/// The fixed prefix of a per-axis header key. Combined with a 1-based
/// file-axis number it forms a concrete key name such as `CTYPE3`. These
/// five stubs are exactly the order-dependent per-axis keys.
#[derive(Clone, Copy, Debug, PartialEq, Eq, Structural)]
pub enum AxisKeyStub {
    CType,
    CRVal,
    CDelt,
    CRPix,
    CUnit,
}

/// A header key name: either one of the enumerated per-axis keys (stub plus
/// 1-based file-axis number) or any other key, carried verbatim.
#[derive(Debug)]
pub enum CardName {
    Axis(AxisKeyStub, usize),
    Other(String),
}

/// One header entry: a key name and its textual value.
#[derive(Debug)]
pub struct Card {
    pub name: CardName,
    pub value: String,
}

/// A header: an ordered sequence of cards. Lookups return the first card
/// whose name matches, so earlier cards shadow later duplicates.
#[derive(Debug)]
pub struct Header {
    pub cards: Vec<Card>,
}

/// Whether two key names denote the same key. `Other` names compare by
/// their character sequences.
pub open spec fn card_name_matches(a: CardName, b: CardName) -> bool {
    match (a, b) {
        (CardName::Axis(s1, n1), CardName::Axis(s2, n2)) => s1 == s2 && n1 == n2,
        (CardName::Other(t1), CardName::Other(t2)) => t1@ == t2@,
        _ => false,
    }
}

/// Value of the first card named `name`, or `None` when no card matches.
pub open spec fn spec_lookup(cards: Seq<Card>, name: CardName) -> Option<Seq<char>>
    decreases cards.len(),
{
    if cards.len() == 0 {
        None
    } else if card_name_matches(cards[0].name, name) {
        Some(cards[0].value@)
    } else {
        spec_lookup(cards.subrange(1, cards.len() as int), name)
    }
}

/// Value of the first card for the per-axis key `stub`/`axis`.
pub open spec fn spec_axis_lookup(cards: Seq<Card>, stub: AxisKeyStub, axis: int) -> Option<
    Seq<char>,
> {
    spec_lookup(cards, CardName::Axis(stub, axis as usize))
}

impl Header {
    /// A header with no cards.
    pub fn new() -> (r: Header)
        ensures
            r.cards@.len() == 0,
    {
        Header { cards: Vec::new() }
    }

    /// Appends a per-axis card.
    pub fn push_axis_card(&mut self, stub: AxisKeyStub, axis: usize, value: String)
        ensures
            final(self).cards@ == old(self).cards@.push(
                Card { name: CardName::Axis(stub, axis), value },
            ),
    {
        self.cards.push(Card { name: CardName::Axis(stub, axis), value });
    }

    /// Appends a card that is not one of the enumerated per-axis keys.
    pub fn push_other_card(&mut self, name: String, value: String)
        ensures
            final(self).cards@ == old(self).cards@.push(
                Card { name: CardName::Other(name), value },
            ),
    {
        self.cards.push(Card { name: CardName::Other(name), value });
    }

    /// Value of the first card for the per-axis key `stub`/`axis`.
    pub fn axis_lookup(&self, stub: AxisKeyStub, axis: usize) -> (r: Option<&String>)
        ensures
            match r {
                Some(v) => spec_axis_lookup(self.cards@, stub, axis as int) == Some(v@),
                None => spec_axis_lookup(self.cards@, stub, axis as int) is None,
            },
    {
        let n = self.cards.len();
        proof {
            assert(self.cards@.subrange(0, n as int) =~= self.cards@);
        }
        for i in 0..n
            invariant
                n == self.cards@.len(),
                spec_lookup(self.cards@, CardName::Axis(stub, axis)) == spec_lookup(
                    self.cards@.subrange(i as int, n as int),
                    CardName::Axis(stub, axis),
                ),
        {
            proof {
                assert(self.cards@.subrange(i as int, n as int)[0] == self.cards@[i as int]);
            }
            let matches_here = match &self.cards[i].name {
                CardName::Axis(s, a) => *s == stub && *a == axis,
                CardName::Other(_) => false,
            };
            if matches_here {
                return Some(&self.cards[i].value);
            }
            proof {
                assert(self.cards@.subrange(i as int, n as int).subrange(
                    1,
                    (n - i) as int,
                ) =~= self.cards@.subrange(i + 1, n as int));
            }
        }
        proof {
            assert(self.cards@.subrange(n as int, n as int).len() == 0);
        }
        None
    }
}

/// Rank of a stub in the remapper's fixed iteration order.
pub open spec fn stub_rank(st: AxisKeyStub) -> int {
    match st {
        AxisKeyStub::CType => 0,
        AxisKeyStub::CRVal => 1,
        AxisKeyStub::CDelt => 2,
        AxisKeyStub::CRPix => 3,
        AxisKeyStub::CUnit => 4,
    }
}

/// The stub of the given rank.
fn stub_by_rank(si: usize) -> (st: AxisKeyStub)
    requires
        si < 5,
    ensures
        stub_rank(st) == si,
{
    if si == 0 {
        AxisKeyStub::CType
    } else if si == 1 {
        AxisKeyStub::CRVal
    } else if si == 2 {
        AxisKeyStub::CDelt
    } else if si == 3 {
        AxisKeyStub::CRPix
    } else {
        AxisKeyStub::CUnit
    }
}

/// `(st2, o2)` comes before `(st, o)` in the remapper's iteration order:
/// stubs in their fixed order, axes ascending within a stub.
pub open spec fn remap_order_lt(st2: AxisKeyStub, o2: int, st: AxisKeyStub, o: int) -> bool {
    stub_rank(st2) < stub_rank(st) || (st2 == st && o2 < o)
}

/// A name the remapper rewrites: one of the five per-axis stubs with an
/// axis number in `1..=naxis`.
pub open spec fn is_remapped_name(name: CardName, naxis: int) -> bool {
    match name {
        CardName::Axis(_, a) => 1 <= a <= naxis,
        CardName::Other(_) => false,
    }
}

/// The cards whose names the remapper does not rewrite, in their original
/// order.
pub open spec fn non_axis_cards(cards: Seq<Card>, naxis: int) -> Seq<Card>
    decreases cards.len(),
{
    if cards.len() == 0 {
        Seq::empty()
    } else {
        let rest = non_axis_cards(cards.subrange(1, cards.len() as int), naxis);
        if is_remapped_name(cards[0].name, naxis) {
            rest
        } else {
            seq![cards[0]] + rest
        }
    }
}

/// Looking a name up in concatenated card lists: the first list wins.
proof fn lemma_lookup_append(a: Seq<Card>, b: Seq<Card>, name: CardName)
    ensures
        spec_lookup(a + b, name) == if spec_lookup(a, name) is Some {
            spec_lookup(a, name)
        } else {
            spec_lookup(b, name)
        },
    decreases a.len(),
{
    if a.len() == 0 {
        assert(a + b =~= b);
    } else {
        assert((a + b)[0] == a[0]);
        assert((a + b).subrange(1, (a + b).len() as int) =~= a.subrange(1, a.len() as int) + b);
        lemma_lookup_append(a.subrange(1, a.len() as int), b, name);
    }
}

/// Appending one card changes only lookups that found nothing and that the
/// new card's name answers.
proof fn lemma_lookup_push(cards: Seq<Card>, c: Card, name: CardName)
    ensures
        spec_lookup(cards.push(c), name) == if spec_lookup(cards, name) is Some {
            spec_lookup(cards, name)
        } else if card_name_matches(c.name, name) {
            Some(c.value@)
        } else {
            None
        },
{
    assert(cards.push(c) =~= cards + seq![c]);
    lemma_lookup_append(cards, seq![c], name);
    assert(seq![c].len() == 1);
    assert(seq![c][0] == c);
    assert(seq![c].subrange(1, 1) =~= Seq::<Card>::empty());
    assert(spec_lookup(Seq::<Card>::empty(), name) is None);
}

/// Dropping the rewritten cards leaves every other lookup unchanged.
proof fn lemma_non_axis_lookup(cards: Seq<Card>, naxis: int, name: CardName)
    requires
        !is_remapped_name(name, naxis),
    ensures
        spec_lookup(non_axis_cards(cards, naxis), name) == spec_lookup(cards, name),
    decreases cards.len(),
{
    if cards.len() > 0 {
        let rest = cards.subrange(1, cards.len() as int);
        lemma_non_axis_lookup(rest, naxis, name);
        if is_remapped_name(cards[0].name, naxis) {
            assert(!card_name_matches(cards[0].name, name));
        } else {
            let kept = seq![cards[0]] + non_axis_cards(rest, naxis);
            assert(kept[0] == cards[0]);
            assert(kept.subrange(1, kept.len() as int) =~= non_axis_cards(rest, naxis));
        }
    }
}

/// Dropping the rewritten cards removes every rewritten name.
proof fn lemma_non_axis_lookup_none(cards: Seq<Card>, naxis: int, name: CardName)
    requires
        is_remapped_name(name, naxis),
    ensures
        spec_lookup(non_axis_cards(cards, naxis), name) is None,
    decreases cards.len(),
{
    if cards.len() > 0 {
        let rest = cards.subrange(1, cards.len() as int);
        lemma_non_axis_lookup_none(rest, naxis, name);
        if !is_remapped_name(cards[0].name, naxis) {
            assert(!card_name_matches(cards[0].name, name));
            let kept = seq![cards[0]] + non_axis_cards(rest, naxis);
            assert(kept[0] == cards[0]);
            assert(kept.subrange(1, kept.len() as int) =~= non_axis_cards(rest, naxis));
        }
    }
}

/// Every enumerated per-axis key is present in `cards`.
pub open spec fn all_axis_keys_present(cards: Seq<Card>, naxis: int) -> bool {
    forall|st: AxisKeyStub, o: int|
        1 <= o <= naxis ==> (#[trigger] spec_axis_lookup(cards, st, o)) is Some
}

/// `dst` is `src` remapped by `fm`: the value of `{stub}{o}` in `src` is
/// the value of `{stub}{fm[o - 1]}` in `dst`, and every name outside the
/// enumerated per-axis keys answers as it did in `src`.
pub open spec fn remapped_header_ok(src: Seq<Card>, dst: Seq<Card>, fm: Seq<int>, naxis: int) -> bool {
    &&& forall|st: AxisKeyStub, o: int|
        1 <= o <= naxis ==> spec_axis_lookup(dst, st, fm[o - 1]) == (#[trigger] spec_axis_lookup(
            src,
            st,
            o,
        ))
    &&& forall|name: CardName|
        !is_remapped_name(name, naxis) ==> (#[trigger] spec_lookup(dst, name)) == spec_lookup(
            src,
            name,
        )
}

/// `e` reports the first missing per-axis key of `src`, in stub-major,
/// axis-ascending order.
pub open spec fn remap_missing_key(src: Seq<Card>, naxis: int, e: RotateError) -> bool {
    e matches RotateError::KeyMissing(st, o) && 1 <= o <= naxis && spec_axis_lookup(
        src,
        st,
        o as int,
    ) is None && (forall|st2: AxisKeyStub, o2: int|
        1 <= o2 <= naxis && remap_order_lt(st2, o2, st, o as int) ==> (#[trigger] spec_axis_lookup(
            src,
            st2,
            o2,
        )) is Some)
}

/// Builds a fresh header for a rotated cube: every per-axis key
/// `{stub}{o}` of the source is written as `{stub}{file_map[o - 1]}` in the
/// result, so axis-indexed metadata travels with its data; every card that
/// is not one of the enumerated per-axis keys is carried over verbatim, in
/// its original order. The source is read only. A per-axis key absent from
/// the source is reported as missing — the first one in stub-major,
/// axis-ascending order — never silently skipped.
pub fn remap_header(src: &Header, file_map: &Vec<usize>, naxis: usize) -> (r: Result<
    Header,
    RotateError,
>)
    requires
        crate::planner::is_file_axis_perm(to_int_seq(file_map@), naxis as nat),
    ensures
        r is Ok <==> all_axis_keys_present(src.cards@, naxis as int),
        r matches Ok(dst) ==> remapped_header_ok(
            src.cards@,
            dst.cards@,
            to_int_seq(file_map@),
            naxis as int,
        ),
        r matches Err(e) ==> remap_missing_key(src.cards@, naxis as int, e),
{
    let ghost nx = naxis as int;
    let n_cards = src.cards.len();
    let mut dst: Vec<Card> = Vec::new();
    proof {
        assert(src.cards@.skip(0) =~= src.cards@);
        assert(dst@ + non_axis_cards(src.cards@, nx) =~= non_axis_cards(src.cards@, nx));
    }
    for idx in 0..n_cards
        invariant
            n_cards == src.cards@.len(),
            nx == naxis as int,
            dst@ + non_axis_cards(src.cards@.skip(idx as int), nx) == non_axis_cards(
                src.cards@,
                nx,
            ),
    {
        let c = &src.cards[idx];
        let keep = match &c.name {
            CardName::Axis(_, a) => !(1 <= *a && *a <= naxis),
            CardName::Other(_) => true,
        };
        let ghost old_dst = dst@;
        let ghost tail = src.cards@.skip(idx as int);
        proof {
            assert(tail[0] == src.cards@[idx as int]);
            assert(tail.subrange(1, tail.len() as int) =~= src.cards@.skip(idx + 1));
        }
        if keep {
            dst.push(clone_card(c));
            proof {
                assert(non_axis_cards(tail, nx) =~= seq![tail[0]] + non_axis_cards(
                    src.cards@.skip(idx + 1),
                    nx,
                ));
                assert(dst@ + non_axis_cards(src.cards@.skip(idx + 1), nx) =~= old_dst
                    + non_axis_cards(tail, nx));
            }
        } else {
            proof {
                assert(non_axis_cards(tail, nx) =~= non_axis_cards(src.cards@.skip(idx + 1), nx));
            }
        }
    }
    proof {
        assert(src.cards@.skip(n_cards as int) =~= Seq::<Card>::empty());
        assert(dst@ =~= non_axis_cards(src.cards@, nx));
        assert forall|name: CardName|
            !is_remapped_name(name, nx) implies (#[trigger] spec_lookup(dst@, name))
            == spec_lookup(src.cards@, name) by {
            lemma_non_axis_lookup(src.cards@, nx, name);
        }
        assert forall|st: AxisKeyStub, a: int|
            1 <= a <= naxis implies (#[trigger] spec_axis_lookup(dst@, st, a)) is None by {
            lemma_non_axis_lookup_none(src.cards@, nx, CardName::Axis(st, a as usize));
        }
    }
    for si in 0..5
        invariant
            nx == naxis as int,
            file_map@.len() == naxis,
            crate::planner::is_file_axis_perm(to_int_seq(file_map@), naxis as nat),
            forall|name: CardName|
                !is_remapped_name(name, nx) ==> (#[trigger] spec_lookup(dst@, name))
                    == spec_lookup(src.cards@, name),
            forall|st2: AxisKeyStub, o2: int|
                stub_rank(st2) < si && 1 <= o2 <= naxis ==> (#[trigger] spec_axis_lookup(
                    src.cards@,
                    st2,
                    o2,
                )) is Some && spec_axis_lookup(dst@, st2, file_map@[o2 - 1] as int)
                    == spec_axis_lookup(src.cards@, st2, o2),
            forall|st2: AxisKeyStub, a: int|
                stub_rank(st2) >= si && 1 <= a <= naxis ==> (#[trigger] spec_axis_lookup(
                    dst@,
                    st2,
                    a,
                )) is None,
    {
        let st = stub_by_rank(si);
        for oi in 0..naxis
            invariant
                nx == naxis as int,
                file_map@.len() == naxis,
                crate::planner::is_file_axis_perm(to_int_seq(file_map@), naxis as nat),
                si < 5,
                stub_rank(st) == si,
                forall|name: CardName|
                    !is_remapped_name(name, nx) ==> (#[trigger] spec_lookup(dst@, name))
                        == spec_lookup(src.cards@, name),
                forall|st2: AxisKeyStub, o2: int|
                    stub_rank(st2) < si && 1 <= o2 <= naxis ==> (#[trigger] spec_axis_lookup(
                        src.cards@,
                        st2,
                        o2,
                    )) is Some && spec_axis_lookup(dst@, st2, file_map@[o2 - 1] as int)
                        == spec_axis_lookup(src.cards@, st2, o2),
                forall|o2: int|
                    1 <= o2 <= oi ==> (#[trigger] spec_axis_lookup(src.cards@, st, o2)) is Some
                        && spec_axis_lookup(dst@, st, file_map@[o2 - 1] as int)
                        == spec_axis_lookup(src.cards@, st, o2),
                forall|st2: AxisKeyStub, a: int|
                    stub_rank(st2) > si && 1 <= a <= naxis ==> (#[trigger] spec_axis_lookup(
                        dst@,
                        st2,
                        a,
                    )) is None,
                forall|a: int|
                    1 <= a <= naxis && !crate::planner::appears_before(file_map@, a, oi as int)
                        ==> (#[trigger] spec_axis_lookup(dst@, st, a)) is None,
        {
            let o = oi + 1;
            match src.axis_lookup(st, o) {
                None => {
                    proof {
                        assert forall|st2: AxisKeyStub, o2: int|
                            1 <= o2 <= naxis && remap_order_lt(st2, o2, st, o as int) implies (
                        #[trigger] spec_axis_lookup(src.cards@, st2, o2)) is Some by {
                            if stub_rank(st2) >= si {
                                assert(st2 == st);
                            }
                        }
                    }
                    return Err(RotateError::KeyMissing(st, o));
                },
                Some(v) => {
                    let newa = file_map[oi];
                    let ghost old_dst = dst@;
                    proof {
                        assert(1 <= to_int_seq(file_map@)[oi as int] <= naxis);
                        assert(!crate::planner::appears_before(
                            file_map@,
                            newa as int,
                            oi as int,
                        )) by {
                            if crate::planner::appears_before(file_map@, newa as int, oi as int) {
                                let k2 = choose|k2: int|
                                    0 <= k2 < oi && (#[trigger] file_map@[k2]) as int
                                        == newa as int;
                                assert(to_int_seq(file_map@)[k2] == to_int_seq(file_map@)[
                                    oi as int]);
                            }
                        }
                        assert(spec_axis_lookup(dst@, st, newa as int) is None);
                    }
                    let value = v.clone();
                    let card = Card { name: CardName::Axis(st, newa), value };
                    let ghost cg = card;
                    dst.push(card);
                    proof {
                        assert forall|name: CardName|
                            !is_remapped_name(name, nx) implies (#[trigger] spec_lookup(
                            dst@,
                            name,
                        )) == spec_lookup(src.cards@, name) by {
                            lemma_lookup_push(old_dst, cg, name);
                            assert(!card_name_matches(cg.name, name));
                        }
                        assert forall|st2: AxisKeyStub, o2: int|
                            stub_rank(st2) < si && 1 <= o2 <= naxis implies (
                        #[trigger] spec_axis_lookup(src.cards@, st2, o2)) is Some
                            && spec_axis_lookup(dst@, st2, file_map@[o2 - 1] as int)
                            == spec_axis_lookup(src.cards@, st2, o2) by {
                            lemma_lookup_push(
                                old_dst,
                                cg,
                                CardName::Axis(st2, (file_map@[o2 - 1] as int) as usize),
                            );
                        }
                        assert forall|o2: int|
                            1 <= o2 <= oi + 1 implies (#[trigger] spec_axis_lookup(
                            src.cards@,
                            st,
                            o2,
                        )) is Some && spec_axis_lookup(dst@, st, file_map@[o2 - 1] as int)
                            == spec_axis_lookup(src.cards@, st, o2) by {
                            lemma_lookup_push(
                                old_dst,
                                cg,
                                CardName::Axis(st, (file_map@[o2 - 1] as int) as usize),
                            );
                            if o2 == oi + 1 {
                                assert(card_name_matches(
                                    cg.name,
                                    CardName::Axis(st, (file_map@[o2 - 1] as int) as usize),
                                ));
                            } else {
                                assert(spec_axis_lookup(
                                    old_dst,
                                    st,
                                    file_map@[o2 - 1] as int,
                                ) is Some);
                            }
                        }
                        assert forall|st2: AxisKeyStub, a: int|
                            stub_rank(st2) > si && 1 <= a <= naxis implies (
                        #[trigger] spec_axis_lookup(dst@, st2, a)) is None by {
                            assert(spec_axis_lookup(old_dst, st2, a) is None);
                            lemma_lookup_push(old_dst, cg, CardName::Axis(st2, a as usize));
                            assert(!card_name_matches(cg.name, CardName::Axis(st2, a as usize)));
                        }
                        assert forall|a: int|
                            1 <= a <= naxis && !crate::planner::appears_before(
                                file_map@,
                                a,
                                oi + 1,
                            ) implies (#[trigger] spec_axis_lookup(dst@, st, a)) is None by {
                            assert(!crate::planner::appears_before(file_map@, a, oi as int)) by {
                                if crate::planner::appears_before(file_map@, a, oi as int) {
                                    let k2 = choose|k2: int|
                                        0 <= k2 < oi && (#[trigger] file_map@[k2]) as int == a;
                                    assert(0 <= k2 < oi + 1 && file_map@[k2] as int == a);
                                }
                            }
                            assert(file_map@[oi as int] as int != a) by {
                                if file_map@[oi as int] as int == a {
                                    assert(0 <= oi < oi + 1 && file_map@[oi as int] as int == a);
                                }
                            }
                            assert(spec_axis_lookup(old_dst, st, a) is None);
                            lemma_lookup_push(old_dst, cg, CardName::Axis(st, a as usize));
                            assert(!card_name_matches(cg.name, CardName::Axis(st, a as usize)));
                        }
                    }
                },
            }
        }
        proof {
            assert forall|st2: AxisKeyStub, o2: int|
                stub_rank(st2) < si + 1 && 1 <= o2 <= naxis implies (#[trigger] spec_axis_lookup(
                src.cards@,
                st2,
                o2,
            )) is Some && spec_axis_lookup(dst@, st2, file_map@[o2 - 1] as int)
                == spec_axis_lookup(src.cards@, st2, o2) by {
                if stub_rank(st2) == si {
                    assert(st2 == st);
                }
            }
        }
    }
    proof {
        assert forall|st: AxisKeyStub, o: int|
            1 <= o <= naxis implies (#[trigger] spec_axis_lookup(src.cards@, st, o)) is Some by {
            assert(stub_rank(st) < 5);
        }
    }
    Ok(Header { cards: dst })
}

/// A copy of a key name that compares equal to the original.
fn clone_card_name(n: &CardName) -> (r: CardName)
    ensures
        r == *n,
{
    match n {
        CardName::Axis(st, a) => CardName::Axis(*st, *a),
        CardName::Other(s) => CardName::Other(s.clone()),
    }
}

/// A copy of a card that compares equal to the original.
fn clone_card(c: &Card) -> (r: Card)
    ensures
        r == *c,
{
    Card { name: clone_card_name(&c.name), value: c.value.clone() }
}

} // verus!

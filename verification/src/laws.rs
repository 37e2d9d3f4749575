//! What follows from the rules of the game, whichever way it is played.

use vstd::prelude::*;
use crate::card::Card;
use crate::deck::{all_facing, spec_make_deck};
use crate::moves::{deal_count, stock_after_deal, waste_after_deal};
use crate::pile::StackId;
use crate::table::Table;

verus! {

/// A seed fixes the game: two tables dealt from the same seed have the same
/// cards in every pile, facing the same way, and the same cursor.
pub proof fn lemma_same_seed_same_table(first: Table, second: Table, seed: u64)
    requires
        first.is_deal_of(spec_make_deck(seed)),
        second.is_deal_of(spec_make_deck(seed)),
    ensures
        forall|id: StackId| #[trigger] first.cards_of(id) == second.cards_of(id),
        first.same_tags(&second),
        first.source == second.source,
        first.target == second.target,
{
    assert forall|id: StackId| #[trigger] first.cards_of(id) == second.cards_of(id) by {
        if id.kind() == crate::pile::StackType::Foundation {
            let i = id.ring_index() - 2;
            assert(first.cards_of(id) == first.foundations@[i].cards@);
            assert(second.cards_of(id) == second.foundations@[i].cards@);
            assert(first.cards_of(id) =~= second.cards_of(id));
        } else if id.kind() == crate::pile::StackType::Tableau {
            let i = id.ring_index() - 6;
            assert(first.cards_of(id) == first.tableaux@[i].cards@);
            assert(second.cards_of(id) == second.tableaux@[i].cards@);
        } else {
            assert(first.cards_of(id) =~= second.cards_of(id));
        }
    }
}

/// The waste at the moment the stock runs out, when it is dealt out deal
/// after deal.
pub open spec fn waste_when_dealt_out(stock: Seq<Card>, waste: Seq<Card>) -> Seq<Card>
    decreases stock.len(),
{
    if stock.len() == 0 {
        waste
    } else {
        waste_when_dealt_out(stock_after_deal(stock, waste), waste_after_deal(stock, waste))
    }
}

/// The stock after one turn through it: it is dealt out onto the waste, and
/// the next deal takes the waste back.
pub open spec fn stock_after_turn(stock: Seq<Card>, waste: Seq<Card>) -> Seq<Card> {
    stock_after_deal(Seq::empty(), waste_when_dealt_out(stock, waste))
}

/// `stock` with the cards of each deal in reverse order, every deal in its
/// own place.
pub open spec fn with_deals_reversed(stock: Seq<Card>) -> Seq<Card>
    decreases stock.len(),
{
    if stock.len() == 0 {
        stock
    } else {
        let at = stock.len() - deal_count(stock);
        with_deals_reversed(stock.subrange(0, at)) + stock.subrange(
            at,
            stock.len() as int,
        ).reverse()
    }
}

/// One turn through the stock brings back every card face down, with the
/// cards of each deal in reverse order and what lay on the waste before,
/// reversed as a whole, on top.
pub proof fn lemma_turn_reverses_deals(stock: Seq<Card>, waste: Seq<Card>)
    ensures
        stock_after_turn(stock, waste) == all_facing(
            with_deals_reversed(stock) + waste.reverse(),
            false,
        ),
    decreases stock.len(),
{
    if stock.len() == 0 {
        assert(with_deals_reversed(stock) + waste.reverse() =~= waste.reverse());
    } else {
        let at = stock.len() - deal_count(stock);
        let rest = stock.subrange(0, at);
        let dealt = stock.subrange(at, stock.len() as int);
        let grown = waste + all_facing(dealt, true);
        lemma_turn_reverses_deals(rest, grown);
        assert(stock_after_turn(stock, waste) == stock_after_turn(rest, grown));
        lemma_deals_reversed_len(rest);
        assert(all_facing(with_deals_reversed(rest) + grown.reverse(), false) =~= all_facing(
            with_deals_reversed(stock) + waste.reverse(),
            false,
        ));
    }
}

/// Reversing the deals moves no card out of its deal.
pub proof fn lemma_deals_reversed_len(stock: Seq<Card>)
    ensures
        with_deals_reversed(stock).len() == stock.len(),
    decreases stock.len(),
{
    if stock.len() > 0 {
        lemma_deals_reversed_len(stock.subrange(0, stock.len() - deal_count(stock)));
    }
}

/// Every deal of the stock reads the same from either end, faces apart.
pub open spec fn deals_are_symmetric(stock: Seq<Card>) -> bool {
    all_facing(with_deals_reversed(stock), false) == all_facing(stock, false)
}

/// A turn through the stock, begun with an empty waste, brings the stock
/// back as it was, face down, where every deal of it reads the same from
/// either end, and only there.
pub proof fn lemma_turn_restores_symmetric_stock(stock: Seq<Card>)
    ensures
        deals_are_symmetric(stock) <==> stock_after_turn(stock, Seq::empty()) == all_facing(
            stock,
            false,
        ),
{
    lemma_turn_reverses_deals(stock, Seq::empty());
    assert(with_deals_reversed(stock) + Seq::<Card>::empty().reverse() =~= with_deals_reversed(
        stock,
    ));
}

/// A stock of one card at most is the same after a turn, face down.
pub proof fn lemma_turn_restores_short_stock(stock: Seq<Card>)
    requires
        stock.len() <= 1,
    ensures
        deals_are_symmetric(stock),
        stock_after_turn(stock, Seq::empty()) == all_facing(stock, false),
{
    if stock.len() == 1 {
        assert(with_deals_reversed(stock.subrange(0, 0)) =~= Seq::<Card>::empty());
    }
    assert(with_deals_reversed(stock) =~= stock);
    lemma_turn_restores_symmetric_stock(stock);
}

/// Reversing the deals and turning the cards can be done in either order.
pub proof fn lemma_deals_reversed_facing(stock: Seq<Card>, face_up: bool)
    ensures
        with_deals_reversed(all_facing(stock, face_up)) == all_facing(
            with_deals_reversed(stock),
            face_up,
        ),
    decreases stock.len(),
{
    let turned = all_facing(stock, face_up);
    if stock.len() == 0 {
        assert(with_deals_reversed(turned) =~= all_facing(with_deals_reversed(stock), face_up));
    } else {
        let at = stock.len() - deal_count(stock);
        lemma_deals_reversed_facing(stock.subrange(0, at), face_up);
        lemma_deals_reversed_len(stock.subrange(0, at));
        lemma_deals_reversed_len(turned.subrange(0, at));
        assert(turned.subrange(0, at) =~= all_facing(stock.subrange(0, at), face_up));
        assert(with_deals_reversed(turned) =~= all_facing(with_deals_reversed(stock), face_up));
    }
}

/// Reversing the deals twice gives the stock as it was.
pub proof fn lemma_deals_reversed_twice(stock: Seq<Card>)
    ensures
        with_deals_reversed(with_deals_reversed(stock)) == stock,
    decreases stock.len(),
{
    if stock.len() > 0 {
        let at = stock.len() - deal_count(stock);
        let once = with_deals_reversed(stock);
        lemma_deals_reversed_twice(stock.subrange(0, at));
        lemma_deals_reversed_len(stock.subrange(0, at));
        lemma_deals_reversed_len(stock);
        assert(once.subrange(0, at) =~= with_deals_reversed(stock.subrange(0, at)));
        assert(once.subrange(at, once.len() as int).reverse() =~= stock.subrange(
            at,
            stock.len() as int,
        ));
        assert(with_deals_reversed(once) =~= stock);
    }
}

/// Two turns through the stock, each begun with an empty waste, bring back
/// any stock as it was, face down.
pub proof fn lemma_two_turns_restore_stock(stock: Seq<Card>)
    ensures
        stock_after_turn(stock_after_turn(stock, Seq::empty()), Seq::empty()) == all_facing(
            stock,
            false,
        ),
{
    let none = Seq::<Card>::empty();
    let once = stock_after_turn(stock, none);
    lemma_turn_reverses_deals(stock, none);
    lemma_turn_reverses_deals(once, none);
    assert(with_deals_reversed(stock) + none.reverse() =~= with_deals_reversed(stock));
    assert(with_deals_reversed(once) + none.reverse() =~= with_deals_reversed(once));
    lemma_deals_reversed_facing(with_deals_reversed(stock), false);
    lemma_deals_reversed_twice(stock);
    assert(all_facing(all_facing(stock, false), false) =~= all_facing(stock, false));
}

} // verus!

//! Dispatch orchestration, as far as it is decidable without the remote
//! calls: turning a batch of per-reference resolution outcomes into cards,
//! and composing the single outgoing reply with its delete control.

use crate::num::dec_str;
use crate::render::{render, render_view, CardView, PreviewCard, Resolved};
use crate::text::chars_to_string;
use vstd::prelude::*;
use vstd::string::StringExecFns;

verus! {

/// Cards of a batch of resolution outcomes, aligned with the scanned
/// references: one card per successfully resolved reference, in order;
/// failed resolutions contribute nothing.
pub open spec fn cards_view(rs: Seq<Option<Resolved>>) -> Seq<CardView>
    decreases rs.len(),
{
    if rs.len() == 0 {
        Seq::empty()
    } else {
        (match rs[0] {
            Some(r) => seq![render_view(r)],
            None => Seq::empty(),
        }) + cards_view(rs.drop_first())
    }
}

/// Number of successful resolutions in a batch.
pub open spec fn count_some(rs: Seq<Option<Resolved>>) -> int
    decreases rs.len(),
{
    if rs.len() == 0 {
        0
    } else {
        (if rs[0] is Some {
            1int
        } else {
            0int
        }) + count_some(rs.drop_first())
    }
}

/// Renders every successfully resolved reference, keeping order and dropping
/// failures silently.
pub fn assemble_cards(rs: Vec<Option<Resolved>>) -> (out: Vec<PreviewCard>)
    ensures
        out@.map_values(|c: PreviewCard| c@) == cards_view(rs@),
{
    let ghost whole = rs@;
    let mut rs = rs;
    let mut out: Vec<PreviewCard> = Vec::new();
    while rs.len() > 0
        invariant
            out@.map_values(|c: PreviewCard| c@) + cards_view(rs@) == cards_view(whole),
        decreases rs@.len(),
    {
        let ghost before = rs@;
        let ghost prev = out@.map_values(|c: PreviewCard| c@);
        let head = rs.remove(0);
        proof {
            assert(rs@ =~= before.drop_first());
        }
        match head {
            Some(r) => {
                let card = render(r);
                let ghost cv = card@;
                out.push(card);
                proof {
                    assert(out@.map_values(|c: PreviewCard| c@) =~= prev.push(cv));
                    assert(prev.push(cv) + cards_view(before.drop_first()) =~= prev + (seq![cv]
                        + cards_view(before.drop_first())));
                }
            },
            None => {
                proof {
                    assert(Seq::<CardView>::empty() + cards_view(before.drop_first())
                        =~= cards_view(before.drop_first()));
                }
            },
        }
    }
    proof {
        assert(cards_view(rs@) =~= Seq::<CardView>::empty());
    }
    out
}

/// The one outgoing reply for a message: every card, and the delete control
/// bound to the message author.
pub struct Reply {
    pub cards: Vec<PreviewCard>,
    pub control_id: String,
}

/// Control id embedding its author: `del_` then the author id in decimal.
pub open spec fn control_id_view(author_id: u64) -> Seq<char> {
    "del_"@ + dec_str(author_id as nat)
}

/// Builds the control id for a reply's delete button.
pub fn make_control_id(author_id: u64) -> (s: String)
    ensures
        s@ == control_id_view(author_id),
{
    let digits = crate::num::u64_to_dec(author_id);
    let num = chars_to_string(&digits);
    let mut s = "del_".to_owned();
    s.append(num.as_str());
    s
}

/// Composes the reply: none when no card was produced, otherwise one reply
/// holding every card and one delete control for the message author.
pub fn build_reply(cards: Vec<PreviewCard>, author_id: u64) -> (r: Option<Reply>)
    ensures
        r is Some <==> cards@.len() > 0,
        r matches Some(rep) ==> rep.cards == cards && rep.control_id@ == control_id_view(
            author_id,
        ),
{
    if cards.len() == 0 {
        None
    } else {
        let control_id = make_control_id(author_id);
        Some(Reply { cards, control_id })
    }
}

/// Every successfully resolved reference yields exactly one card: a batch's
/// cards are as many as its successful resolutions.
pub proof fn lemma_one_card_per_resolution(rs: Seq<Option<Resolved>>)
    ensures
        cards_view(rs).len() == count_some(rs),
    decreases rs.len(),
{
    if rs.len() > 0 {
        lemma_one_card_per_resolution(rs.drop_first());
    }
}

/// A reference whose fetch failed is omitted from the output with no other
/// reference affected: dropping a failed entry leaves the cards unchanged.
pub proof fn lemma_failed_fetch_omitted(rs: Seq<Option<Resolved>>, i: int)
    requires
        0 <= i < rs.len(),
        rs[i] is None,
    ensures
        cards_view(rs) == cards_view(rs.remove(i)),
    decreases rs.len(),
{
    if i == 0 {
        assert(rs.remove(0) =~= rs.drop_first());
    } else {
        lemma_failed_fetch_omitted(rs.drop_first(), i - 1);
        assert(rs.remove(i).drop_first() =~= rs.drop_first().remove(i - 1));
        assert(rs.remove(i)[0] == rs[0]);
        assert(cards_view(rs.remove(i)) == (match rs[0] {
            Some(r) => seq![render_view(r)],
            None => Seq::<CardView>::empty(),
        }) + cards_view(rs.drop_first().remove(i - 1)));
    }
}

/// A message in which no reference is recognized produces no reply: the
/// batch aligned with an empty scan has no cards, and `build_reply` then
/// returns nothing.
pub proof fn lemma_no_links_no_reply(
    text: Seq<char>,
    repo: Seq<char>,
    rs: Seq<Option<Resolved>>,
)
    requires
        crate::matcher::scan_message_spec(text, repo).len() == 0,
        rs.len() == crate::matcher::scan_message_spec(text, repo).len(),
    ensures
        cards_view(rs).len() == 0,
{
}

/// When every reference resolves, there are exactly as many cards as
/// references, one each, in order.
pub proof fn lemma_all_resolved_all_rendered(rs: Seq<Option<Resolved>>)
    requires
        forall|i: int| 0 <= i < rs.len() ==> rs[i] is Some,
    ensures
        cards_view(rs).len() == rs.len(),
    decreases rs.len(),
{
    if rs.len() > 0 {
        assert(rs[0] is Some);
        assert forall|i: int| 0 <= i < rs.drop_first().len() implies rs.drop_first()[i]
            is Some by {
            assert(rs.drop_first()[i] == rs[i + 1]);
        }
        lemma_all_resolved_all_rendered(rs.drop_first());
    }
}

} // verus!

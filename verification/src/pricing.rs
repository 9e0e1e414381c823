//! The competitor price band a project's pricing page starts from: the card the project was
//! adopted from, or else every card of its research, widened to cover them all.
use vstd::prelude::*;

verus! {

/// A card's band counts when it has a lower end and does not run backwards.
pub open spec fn valid_band(b: (u32, u32)) -> bool {
    b.0 > 0 && b.1 >= b.0
}

/// The smallest band that covers every valid card (`None` when there is none).
pub open spec fn band_spec(cards: Seq<(u32, u32)>) -> Option<(u32, u32)>
    decreases cards.len(),
{
    if cards.len() == 0 {
        None
    } else {
        let rest = band_spec(cards.drop_last());
        let c = cards.last();
        if !valid_band(c) {
            rest
        } else {
            match rest {
                None => Some(c),
                Some(b) => Some((if c.0 < b.0 { c.0 } else { b.0 }, if c.1 > b.1 { c.1 } else { b.1 })),
            }
        }
    }
}

pub fn price_band(cards: &[(u32, u32)]) -> (r: Option<(u32, u32)>)
    ensures
        r == band_spec(cards@),
{
    let mut band: Option<(u32, u32)> = None;
    let mut i: usize = 0;
    while i < cards.len()
        invariant
            i <= cards@.len(),
            band == band_spec(cards@.take(i as int)),
        decreases cards.len() - i,
    {
        proof {
            assert(cards@.take(i + 1).drop_last() == cards@.take(i as int));
            assert(cards@.take(i + 1).last() == cards@[i as int]);
        }
        let (lo, hi) = cards[i];
        if lo > 0 && hi >= lo {
            band = match band {
                None => Some((lo, hi)),
                Some((a, b)) => Some((if lo < a { lo } else { a }, if hi > b { hi } else { b })),
            };
        }
        i += 1;
    }
    assert(cards@.take(cards@.len() as int) == cards@);
    band
}

} // verus!

verus! {

/// The band covers every valid card, is itself a valid band, and each of its ends is the end of
/// some valid card; with no valid card there is no band.
pub proof fn band_covers_every_card(cards: Seq<(u32, u32)>)
    ensures
        band_spec(cards) is None <==> (forall|k: int| 0 <= k < cards.len() ==> !valid_band(#[trigger] cards[k])),
        band_spec(cards) matches Some(b) ==> {
            &&& valid_band(b)
            &&& forall|k: int| 0 <= k < cards.len() && valid_band(#[trigger] cards[k]) ==> b.0 <= cards[k].0 && cards[k].1 <= b.1
            &&& exists|k: int| 0 <= k < cards.len() && valid_band(#[trigger] cards[k]) && cards[k].0 == b.0
            &&& exists|k: int| 0 <= k < cards.len() && valid_band(#[trigger] cards[k]) && cards[k].1 == b.1
        },
    decreases cards.len(),
{
    if cards.len() > 0 {
        let rest = cards.drop_last();
        band_covers_every_card(rest);
        assert forall|k: int| 0 <= k < rest.len() implies rest[k] == cards[k] by {}
        let n = cards.len() - 1;
        assert(cards[n] == cards.last());
        match band_spec(cards) {
            Some(b) => {
                match band_spec(rest) {
                    Some(r) => {
                        if valid_band(cards.last()) {
                            let k1 = choose|k: int| 0 <= k < rest.len() && valid_band(#[trigger] rest[k]) && rest[k].0 == r.0;
                            let k2 = choose|k: int| 0 <= k < rest.len() && valid_band(#[trigger] rest[k]) && rest[k].1 == r.1;
                            assert(valid_band(cards[k1]) && valid_band(cards[k2]));
                            assert(valid_band(cards[n]));
                        } else {
                            let k1 = choose|k: int| 0 <= k < rest.len() && valid_band(#[trigger] rest[k]) && rest[k].0 == r.0;
                            let k2 = choose|k: int| 0 <= k < rest.len() && valid_band(#[trigger] rest[k]) && rest[k].1 == r.1;
                            assert(valid_band(cards[k1]) && valid_band(cards[k2]));
                        }
                    },
                    None => {
                        assert(valid_band(cards[n]));
                    },
                }
            },
            None => {},
        }
    }
}

} // verus!

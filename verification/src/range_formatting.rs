//! Range formatting: server selection and first-server fusion.
//!
//! Several ranges are sent per server; the reply keeps the batches of the
//! first server that answered at all and concatenates its edit lists.
//! Applying the edits to buffer text is the editor side's business; this
//! module decides what is applied and guarantees the synchronous reply
//! discipline (`nop` when there is nothing to do).

use vstd::prelude::*;

use crate::dispatch::Feature;
use crate::dispatch::spec_first_some_index;
use crate::types::EditorMeta;
use crate::types::ServerId;
use crate::types::ServerRegistry;

verus! {

/// The range-formatting entry point: the consulted servers that pass
/// the capability filter, in registry order.
pub fn text_document_range_formatting(meta: &EditorMeta, registry: &ServerRegistry) -> (r: Vec<
    ServerId,
>)
    ensures
        forall|k: int|
            0 <= k < r@.len() ==> crate::dispatch::spec_eligible(
                registry,
                meta,
                Feature::RangeFormatting,
                #[trigger] r@[k],
            ),
        forall|k1: int, k2: int| 0 <= k1 < k2 < r@.len() ==> r@[k1] < r@[k2],
        forall|id: ServerId|
            crate::dispatch::spec_eligible(registry, meta, Feature::RangeFormatting, id)
                ==> r@.contains(id),
{
    crate::dispatch::eligible_servers(registry, meta, Feature::RangeFormatting)
}

/// The concatenated present batches of server `id`, in batch order.
pub open spec fn batches_for<T>(s: Seq<(ServerId, Option<Vec<T>>)>, id: ServerId) -> Seq<T>
    decreases s.len(),
{
    if s.len() == 0 {
        Seq::empty()
    } else {
        batches_for(s.drop_last(), id) + (if s.last().0 == id && s.last().1 is Some {
            s.last().1->0@
        } else {
            Seq::empty()
        })
    }
}

/// First-server fusion: the batches of the first server that answered at
/// all, concatenated; nothing when no server answered.
pub fn select_first_server_batches<T>(results: Vec<(ServerId, Option<Vec<T>>)>) -> (r: Option<
    (ServerId, Vec<T>),
>)
    ensures
        ({
            let idx = spec_first_some_index(results@);
            &&& (r is Some <==> idx < results@.len())
            &&& (r is Some ==> (r->0).0 == results@[idx].0 && (r->0).1@ == batches_for(
                results@,
                results@[idx].0,
            ))
        }),
{
    proof {
        crate::dispatch::lemma_first_some_index_bounds(results@);
    }
    let ghost results0 = results@;
    // find the chosen server
    let mut chosen: Option<ServerId> = Option::None;
    let mut i: usize = 0;
    while i < results.len() && chosen.is_none()
        invariant
            i <= results0.len(),
            results@ == results0,
            match chosen {
                Option::None => forall|j: int| 0 <= j < i ==> (#[trigger] results0[j]).1 is None,
                Option::Some(id) => spec_first_some_index(results0) < results0.len() && id
                    == results0[spec_first_some_index(results0)].0,
            },
        decreases results0.len() - i + (if chosen is None {
            1int
        } else {
            0int
        }),
    {
        if results[i].1.is_some() {
            proof {
                crate::dispatch::lemma_first_some_index_bounds(results0);
                let f = spec_first_some_index(results0);
                if f < i as int {
                    assert(results0[f].1 is None);
                    assert(false);
                }
                if f > i as int {
                    assert(results0[i as int].1 is None);
                    assert(false);
                }
            }
            chosen = Option::Some(results[i].0);
        } else {
            i = i + 1;
        }
    }
    let id = match chosen {
        Option::Some(id) => id,
        Option::None => {
            proof {
                crate::dispatch::lemma_first_some_index_bounds(results0);
                if spec_first_some_index(results0) < results0.len() {
                    assert(results0[spec_first_some_index(results0)].1 is None);
                }
            }
            return Option::None;
        },
    };
    // concatenate that server's batches
    let mut out: Vec<T> = Vec::new();
    let mut rest = results;
    let ghost mut k: int = 0;
    proof {
        assert(results0.take(0) =~= Seq::<(ServerId, Option<Vec<T>>)>::empty());
        assert(results0.skip(0) =~= results0);
        assert(out@ =~= batches_for(results0.take(0), id));
    }
    while rest.len() > 0
        invariant
            0 <= k <= results0.len(),
            rest@ == results0.skip(k),
            out@ == batches_for(results0.take(k), id),
        decreases rest@.len(),
    {
        let (sid, answer) = rest.remove(0);
        proof {
            assert((sid, answer) == results0[k]);
            assert(rest@ =~= results0.skip(k + 1));
            assert(results0.take(k + 1).drop_last() =~= results0.take(k));
            assert(results0.take(k + 1).last() == results0[k]);
        }
        match answer {
            Option::Some(mut batch) => {
                if sid == id {
                    let ghost batchv = batch@;
                    out.append(&mut batch);
                    proof {
                        assert(out@ =~= batches_for(results0.take(k + 1), id));
                    }
                } else {
                    proof {
                        assert(out@ =~= batches_for(results0.take(k + 1), id));
                    }
                }
            },
            Option::None => {
                proof {
                    assert(out@ =~= batches_for(results0.take(k + 1), id));
                }
            },
        }
        proof {
            k = k + 1;
        }
    }
    proof {
        assert(results0.take(results0.len() as int) =~= results0);
    }
    Option::Some((id, out))
}

/// The synchronous reply discipline: the computed apply-edits command, or
/// `nop` when there are no edits, so an editor blocked on a fifo is
/// always released.
pub fn editor_range_formatting(apply_command: Option<String>) -> (r: String)
    ensures
        apply_command is Some ==> r == apply_command->0,
        apply_command is None ==> r@ == "nop"@,
{
    match apply_command {
        Option::Some(cmd) => cmd,
        Option::None => "nop".to_owned(),
    }
}

} // verus!

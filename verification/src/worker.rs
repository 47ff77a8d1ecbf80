//! The rebuild worker: sole consumer of the pending queue.
//!
//! Each step pops the most recently enqueued fragment and splices it
//! into the document; the caller performs one step per acquisition of
//! the queue's lock, writes the rewritten bytes back atomically, and
//! loops forever. A failed splice leaves both the queue and the prior
//! document intact, so one bad document never stops the pipeline.

use vstd::prelude::*;

use crate::document::{
    ends_with_footer, footer, lemma_splice_preserves_footer, splice, spliced, SpliceError,
};
use crate::queue::UploadQueue;

verus! {

/// What one worker step did.
pub enum RebuildOutcome {
    /// The queue was empty; nothing changed.
    Idle,
    /// One fragment was popped and spliced; these are the bytes to
    /// write back over the document.
    Rebuilt(Vec<u8>),
    /// The document's footer did not verify; the queue and the
    /// document are unchanged.
    Failed(SpliceError),
}

/// The document after splicing in every fragment of `frags`, popped
/// from the tail one at a time, most recently enqueued first.
pub open spec fn spliced_all(doc: Seq<u8>, frags: Seq<Seq<u8>>) -> Seq<u8>
    decreases frags.len(),
{
    if frags.len() == 0 {
        doc
    } else {
        spliced_all(spliced(doc, frags.last()), frags.drop_last())
    }
}

/// The pending fragments' bytes laid out in the order the worker
/// splices them: most recently enqueued first.
pub open spec fn drained_concat(frags: Seq<Seq<u8>>) -> Seq<u8>
    decreases frags.len(),
{
    if frags.len() == 0 {
        Seq::<u8>::empty()
    } else {
        frags.last() + drained_concat(frags.drop_last())
    }
}

/// One iteration of the worker: with the queue's lock held, pop the
/// most recent pending fragment and splice it into `document`. On a
/// footer mismatch the fragment is left pending and the document is
/// not touched.
pub fn worker_step(queue: &mut UploadQueue, document: &Vec<u8>) -> (r: RebuildOutcome)
    ensures
        old(queue)@.len() == 0 ==> (r is Idle && final(queue)@ == old(queue)@),
        old(queue)@.len() > 0 && ends_with_footer(document@) ==> (r matches RebuildOutcome::Rebuilt(
            d,
        ) && d@ == spliced(document@, old(queue)@.last()) && final(queue)@
            == old(queue)@.drop_last()),
        old(queue)@.len() > 0 && !ends_with_footer(document@) ==> (r
            matches RebuildOutcome::Failed(e) && e == SpliceError::FooterMismatch && final(queue)@
            == old(queue)@),
{
    let top = queue.peek();
    match top {
        None => RebuildOutcome::Idle,
        Some(fragment) => {
            match splice(document, fragment) {
                Ok(rebuilt) => {
                    let _ = queue.dequeue();
                    RebuildOutcome::Rebuilt(rebuilt)
                },
                Err(e) => RebuildOutcome::Failed(e),
            }
        },
    }
}

/// Splice every pending fragment into `document`, most recently
/// enqueued first, leaving the queue empty.
pub fn drain_queue(queue: &mut UploadQueue, document: Vec<u8>) -> (r: Vec<u8>)
    requires
        ends_with_footer(document@),
    ensures
        r@ == spliced_all(document@, old(queue)@),
        final(queue)@ == Seq::<Seq<u8>>::empty(),
{
    let ghost doc0 = document@;
    let ghost q0 = queue@;
    let mut doc = document;
    while !queue.is_empty()
        invariant
            ends_with_footer(doc@),
            spliced_all(doc@, queue@) == spliced_all(doc0, q0),
        decreases queue@.len(),
    {
        let ghost pre_doc = doc@;
        let ghost pre_q = queue@;
        let popped = queue.dequeue();
        match popped {
            Some(fragment) => {
                match splice(&doc, &fragment) {
                    Ok(rebuilt) => {
                        proof {
                            lemma_splice_preserves_footer(pre_doc, fragment@);
                            assert(spliced_all(pre_doc, pre_q) == spliced_all(
                                spliced(pre_doc, pre_q.last()),
                                pre_q.drop_last(),
                            ));
                        }
                        doc = rebuilt;
                    },
                    Err(_) => {
                        proof {
                            assert(false);
                        }
                    },
                }
            },
            None => {
                proof {
                    assert(false);
                }
            },
        }
    }
    proof {
        assert(queue@ =~= Seq::<Seq<u8>>::empty());
    }
    doc
}

/// Every rebuild preserves the document's footer: whatever fragments
/// are spliced in, the document at rest still ends with exactly the
/// footer bytes.
pub proof fn lemma_rebuilds_preserve_footer(doc: Seq<u8>, frags: Seq<Seq<u8>>)
    requires
        ends_with_footer(doc),
    ensures
        ends_with_footer(spliced_all(doc, frags)),
    decreases frags.len(),
{
    if frags.len() > 0 {
        lemma_splice_preserves_footer(doc, frags.last());
        lemma_rebuilds_preserve_footer(spliced(doc, frags.last()), frags.drop_last());
    }
}

/// LIFO rendering order: when fragment `a` is enqueued strictly before
/// fragment `b` and both are pending, the worker pops `b` first, and
/// after both rebuilds `b`'s bytes stand before `a`'s in the document.
pub proof fn lemma_lifo_order(doc: Seq<u8>, pending: Seq<Seq<u8>>, a: Seq<u8>, b: Seq<u8>)
    requires
        ends_with_footer(doc),
    ensures
        pending.push(a).push(b).last() == b,
        pending.push(a).push(b).drop_last() == pending.push(a),
        spliced(spliced(doc, b), a) == doc.take(doc.len() - footer().len()) + b + a + footer(),
{
    assert(pending.push(a).push(b).drop_last() =~= pending.push(a));
    let first = spliced(doc, b);
    assert(first.take(first.len() - footer().len()) =~= doc.take(doc.len() - footer().len()) + b);
    assert(spliced(first, a) =~= doc.take(doc.len() - footer().len()) + b + a + footer());
}

/// Draining a queue of `frags` inserts every pending fragment into the
/// document exactly once — none lost, none duplicated — in LIFO order,
/// between the retained body and the footer.
pub proof fn lemma_drain_inserts_all(doc: Seq<u8>, frags: Seq<Seq<u8>>)
    requires
        ends_with_footer(doc),
    ensures
        spliced_all(doc, frags) == doc.take(doc.len() - footer().len()) + drained_concat(frags)
            + footer(),
    decreases frags.len(),
{
    if frags.len() == 0 {
        assert(doc =~= doc.take(doc.len() - footer().len()) + drained_concat(frags) + footer());
    } else {
        let first = spliced(doc, frags.last());
        lemma_splice_preserves_footer(doc, frags.last());
        lemma_drain_inserts_all(first, frags.drop_last());
        assert(first.take(first.len() - footer().len()) =~= doc.take(doc.len() - footer().len())
            + frags.last());
        assert(doc.take(doc.len() - footer().len()) + frags.last() + drained_concat(
            frags.drop_last(),
        ) + footer() =~= doc.take(doc.len() - footer().len()) + drained_concat(frags) + footer());
    }
}

} // verus!

//! The pending queue bridging uploads and the rebuild worker.
//!
//! Insertion and removal both happen at the tail, so the queue is a
//! LIFO stack: the most recently enqueued fragment is the next one
//! rendered. The caller is expected to hold the queue behind one
//! exclusive lock; under that lock no fragment is lost or duplicated.

use vstd::prelude::*;

use crate::fragment::{img_markup, sanitized, upload_outcome, Fragment, UploadError};

verus! {

/// The ordered container of fragments awaiting insertion into the
/// document. Viewed as the sequence of the pending fragments' bytes,
/// oldest first; both ends of a pipeline pass touch its tail.
pub struct UploadQueue {
    items: Vec<Fragment>,
}

impl View for UploadQueue {
    type V = Seq<Seq<u8>>;

    closed spec fn view(&self) -> Seq<Seq<u8>> {
        Seq::new(self.items@.len(), |i: int| self.items@[i]@)
    }
}

impl UploadQueue {
    /// An empty queue; the process starts with one.
    pub fn new() -> (q: UploadQueue)
        ensures
            q@ == Seq::<Seq<u8>>::empty(),
    {
        let q = UploadQueue { items: Vec::new() };
        proof {
            assert(q@ =~= Seq::<Seq<u8>>::empty());
        }
        q
    }

    /// How many fragments are pending.
    pub fn len(&self) -> (n: usize)
        ensures
            n == self@.len(),
    {
        self.items.len()
    }

    /// Whether no fragment is pending.
    pub fn is_empty(&self) -> (b: bool)
        ensures
            b == (self@.len() == 0),
    {
        self.items.is_empty()
    }

    /// Append a fragment at the tail.
    pub fn enqueue(&mut self, fragment: Fragment)
        ensures
            final(self)@ == old(self)@.push(fragment@),
    {
        self.items.push(fragment);
        proof {
            assert(self@ =~= old(self)@.push(fragment@));
        }
    }

    /// Remove and return the fragment at the tail — the most recently
    /// enqueued one — or nothing when the queue is empty.
    pub fn dequeue(&mut self) -> (r: Option<Fragment>)
        ensures
            old(self)@.len() == 0 ==> r is None && final(self)@ == old(self)@,
            old(self)@.len() > 0 ==> (r matches Some(f) && f@ == old(self)@.last()
                && final(self)@ == old(self)@.drop_last()),
    {
        let r = self.items.pop();
        proof {
            if old(self)@.len() == 0 {
                assert(self@ =~= old(self)@);
            } else {
                assert(self@ =~= old(self)@.drop_last());
            }
        }
        r
    }

    /// The fragment the worker would take next, without removing it.
    pub fn peek(&self) -> (r: Option<&Fragment>)
        ensures
            self@.len() == 0 ==> r is None,
            self@.len() > 0 ==> (r matches Some(f) && f@ == self@.last()),
    {
        if self.items.len() == 0 {
            None
        } else {
            Some(&self.items[self.items.len() - 1])
        }
    }

    /// Handle one upload request against the queue: reject a missing
    /// media field or filename without touching the queue; otherwise
    /// enqueue the fragment rendering the named file.
    pub fn admit_upload(&mut self, saw_media_field: bool, file_name: &Vec<u8>) -> (r: Result<
        (),
        UploadError,
    >)
        ensures
            !saw_media_field ==> (r matches Err(e) && e == UploadError::MissingMediaField
                && final(self)@ == old(self)@),
            saw_media_field && file_name@.len() == 0 ==> (r matches Err(e) && e
                == UploadError::MissingFilename && final(self)@ == old(self)@),
            saw_media_field && file_name@.len() > 0 ==> (r is Ok && final(self)@
                == old(self)@.push(img_markup(sanitized(file_name@)))),
    {
        match upload_outcome(saw_media_field, file_name) {
            Ok(fragment) => {
                self.enqueue(fragment);
                Ok(())
            },
            Err(e) => Err(e),
        }
    }
}

} // verus!

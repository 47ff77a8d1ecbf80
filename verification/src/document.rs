//! The shared document and the splicer that rewrites it.
//!
//! A document is a byte sequence that begins with a fixed header and
//! ends with a fixed footer. A splice inserts one fragment's bytes
//! just before the footer; a document whose trailing bytes are not
//! exactly the footer is refused untouched.

use vstd::prelude::*;

use crate::fragment::Fragment;

verus! {

/// Opening markup every document starts with: the ASCII bytes of
/// `<!DOCTYPE html>`, `<html>`, `<body>` and `<div class="media">`,
/// each line ending in a newline.
pub open spec fn header() -> Seq<u8> {
    seq![60, 33, 68, 79, 67, 84, 89, 80, 69, 32, 104, 116, 109, 108, 62, 10, 60, 104, 116, 109, 108, 62, 10, 60, 98, 111, 100, 121, 62, 10, 60, 100, 105, 118, 32, 99, 108, 97, 115, 115, 61, 34, 109, 101, 100, 105, 97, 34, 62, 10]
}

/// Closing markup every document must end with: the ASCII bytes of
/// `</div>`, `</body>` and `</html>`, each line ending in a newline.
/// Every splice removes it, appends one fragment, and puts it back.
pub open spec fn footer() -> Seq<u8> {
    seq![60, 47, 100, 105, 118, 62, 10, 60, 47, 98, 111, 100, 121, 62, 10, 60, 47, 104, 116, 109, 108, 62, 10]
}

/// A document is well formed at rest exactly when its trailing bytes
/// are the footer.
pub open spec fn ends_with_footer(doc: Seq<u8>) -> bool {
    &&& doc.len() >= footer().len()
    &&& doc.subrange(doc.len() - footer().len(), doc.len() as int) == footer()
}

/// The document that results from inserting `frag` just before the
/// footer of `doc`.
pub open spec fn spliced(doc: Seq<u8>, frag: Seq<u8>) -> Seq<u8> {
    doc.take(doc.len() - footer().len()) + frag + footer()
}

/// Why a splice was refused.
#[derive(Debug, PartialEq, Eq, Structural)]
pub enum SpliceError {
    /// The document's trailing bytes were not the footer; the
    /// document was left as it was.
    FooterMismatch,
}

/// The footer as owned bytes.
pub fn footer_bytes() -> (r: Vec<u8>)
    ensures
        r@ == footer(),
{
    let mut v: Vec<u8> = Vec::new();
    v.push(60);
    v.push(47);
    v.push(100);
    v.push(105);
    v.push(118);
    v.push(62);
    v.push(10);
    v.push(60);
    v.push(47);
    v.push(98);
    v.push(111);
    v.push(100);
    v.push(121);
    v.push(62);
    v.push(10);
    v.push(60);
    v.push(47);
    v.push(104);
    v.push(116);
    v.push(109);
    v.push(108);
    v.push(62);
    v.push(10);
    proof {
        assert(v@ =~= footer());
    }
    v
}

/// The header as owned bytes.
pub fn header_bytes() -> (r: Vec<u8>)
    ensures
        r@ == header(),
{
    let mut v: Vec<u8> = Vec::new();
    v.push(60);
    v.push(33);
    v.push(68);
    v.push(79);
    v.push(67);
    v.push(84);
    v.push(89);
    v.push(80);
    v.push(69);
    v.push(32);
    v.push(104);
    v.push(116);
    v.push(109);
    v.push(108);
    v.push(62);
    v.push(10);
    v.push(60);
    v.push(104);
    v.push(116);
    v.push(109);
    v.push(108);
    v.push(62);
    v.push(10);
    v.push(60);
    v.push(98);
    v.push(111);
    v.push(100);
    v.push(121);
    v.push(62);
    v.push(10);
    v.push(60);
    v.push(100);
    v.push(105);
    v.push(118);
    v.push(32);
    v.push(99);
    v.push(108);
    v.push(97);
    v.push(115);
    v.push(115);
    v.push(61);
    v.push(34);
    v.push(109);
    v.push(101);
    v.push(100);
    v.push(105);
    v.push(97);
    v.push(34);
    v.push(62);
    v.push(10);
    proof {
        assert(v@ =~= header());
    }
    v
}

/// A fresh document holding no fragments yet: header followed
/// immediately by footer. Written to disk once, before the first
/// splice, when no document exists.
pub fn bootstrap_document() -> (r: Vec<u8>)
    ensures
        r@ == header() + footer(),
        ends_with_footer(r@),
{
    let mut v = header_bytes();
    let mut f = footer_bytes();
    v.append(&mut f);
    proof {
        assert(v@.subrange(v@.len() - footer().len(), v@.len() as int) =~= footer());
    }
    v
}

/// Insert `fragment` just before the footer of `document`, returning
/// the rewritten bytes. The input is only read: on a footer mismatch
/// the prior document is still intact, and the error is reported
/// rather than bytes being truncated blindly.
pub fn splice(document: &Vec<u8>, fragment: &Fragment) -> (r: Result<Vec<u8>, SpliceError>)
    ensures
        ends_with_footer(document@) ==> (r matches Ok(d) && d@ == spliced(document@, fragment@)),
        !ends_with_footer(document@) ==> (r matches Err(e) && e == SpliceError::FooterMismatch),
{
    let foot = footer_bytes();
    let n = document.len();
    if n < foot.len() {
        return Err(SpliceError::FooterMismatch);
    }
    let keep = n - foot.len();

    // Verify that the trailing bytes are exactly the footer.
    let mut i: usize = 0;
    while i < foot.len()
        invariant
            foot@ == footer(),
            n == document@.len(),
            keep == n - foot@.len(),
            i <= foot@.len(),
            forall|j: int| 0 <= j < i ==> document@[keep + j] == footer()[j],
        decreases foot@.len() - i,
    {
        if document[keep + i] != foot[i] {
            proof {
                assert(document@.subrange(keep as int, n as int)[i as int] != footer()[i as int]);
            }
            return Err(SpliceError::FooterMismatch);
        }
        i += 1;
    }
    proof {
        assert(document@.subrange(keep as int, n as int) =~= footer());
    }

    // Rebuild in memory: retained body, then the fragment, then the footer.
    let mut out: Vec<u8> = Vec::new();
    let mut j: usize = 0;
    while j < keep
        invariant
            keep <= document@.len(),
            j <= keep,
            out@ == document@.take(j as int),
        decreases keep - j,
    {
        out.push(document[j]);
        proof {
            assert(out@ =~= document@.take(j + 1));
        }
        j += 1;
    }
    let frag = fragment.bytes();
    let mut k: usize = 0;
    while k < frag.len()
        invariant
            out@ == document@.take(keep as int) + frag@.take(k as int),
            k <= frag@.len(),
        decreases frag@.len() - k,
    {
        out.push(frag[k]);
        proof {
            assert(out@ =~= document@.take(keep as int) + frag@.take(k + 1));
        }
        k += 1;
    }
    let mut foot_tail = foot;
    out.append(&mut foot_tail);
    proof {
        assert(frag@.take(frag@.len() as int) =~= frag@);
        assert(out@ =~= spliced(document@, fragment@));
    }
    Ok(out)
}

/// Every successful splice leaves the footer intact at the end of the
/// document.
pub proof fn lemma_splice_preserves_footer(doc: Seq<u8>, frag: Seq<u8>)
    requires
        ends_with_footer(doc),
    ensures
        ends_with_footer(spliced(doc, frag)),
{
    let s = spliced(doc, frag);
    assert(s.subrange(s.len() - footer().len(), s.len() as int) =~= footer());
}

/// A splice grows the document by exactly the fragment: the footer is
/// taken off and put back, so only the fragment's bytes are added.
pub proof fn lemma_splice_length(doc: Seq<u8>, frag: Seq<u8>)
    requires
        ends_with_footer(doc),
    ensures
        spliced(doc, frag).len() == doc.len() - footer().len() + frag.len() + footer().len(),
{
}

} // verus!

//! End-to-end exercises of the upload pipeline: fragments, the LIFO
//! pending queue, the splicer, and the worker.

use media_board::document::{bootstrap_document, footer_bytes, header_bytes, splice, SpliceError};
use media_board::fragment::{img_fragment, sanitize_name, upload_outcome, UploadError};
use media_board::queue::UploadQueue;
use media_board::worker::{drain_queue, worker_step, RebuildOutcome};

/// Byte offset of the first occurrence of `needle` in `hay`, if any.
fn find(hay: &[u8], needle: &[u8]) -> Option<usize> {
    if needle.is_empty() || hay.len() < needle.len() {
        return None;
    }
    (0..=hay.len() - needle.len()).find(|&i| &hay[i..i + needle.len()] == needle)
}

fn count(hay: &[u8], needle: &[u8]) -> usize {
    if needle.is_empty() || hay.len() < needle.len() {
        return 0;
    }
    (0..=hay.len() - needle.len())
        .filter(|&i| &hay[i..i + needle.len()] == needle)
        .count()
}

#[test]
fn fragment_for_named_upload() {
    let frag = img_fragment(&b"x.jpg".to_vec());
    assert_eq!(
        frag.bytes().as_slice(),
        br#"<img src="media/x.jpg" loading="lazy">"#
    );
}

#[test]
fn bootstrap_is_header_then_footer() {
    let doc = bootstrap_document();
    let mut expected = header_bytes();
    expected.extend_from_slice(&footer_bytes());
    assert_eq!(doc, expected);
    assert!(doc.ends_with(&footer_bytes()));
}

#[test]
fn splice_inserts_fragment_before_footer() {
    let doc = bootstrap_document();
    let frag = img_fragment(&b"x.jpg".to_vec());
    let rebuilt = splice(&doc, &frag).unwrap();
    let mut expected = header_bytes();
    expected.extend_from_slice(br#"<img src="media/x.jpg" loading="lazy">"#);
    expected.extend_from_slice(&footer_bytes());
    assert_eq!(rebuilt, expected);
    assert!(find(&rebuilt, br#"<img src="media/x.jpg" loading="lazy">"#).is_some());
}

#[test]
fn splice_length_equation() {
    let doc = bootstrap_document();
    let frag = img_fragment(&b"pic.png".to_vec());
    let rebuilt = splice(&doc, &frag).unwrap();
    let footer_len = footer_bytes().len();
    assert_eq!(
        rebuilt.len(),
        doc.len() - footer_len + frag.bytes().len() + footer_len
    );
}

#[test]
fn documents_end_with_footer_after_every_rebuild() {
    let mut doc = bootstrap_document();
    let footer = footer_bytes();
    for name in [&b"a.png"[..], b"b.gif", b"c.webm"] {
        doc = splice(&doc, &img_fragment(&name.to_vec())).unwrap();
        assert!(doc.ends_with(&footer));
    }
}

#[test]
fn corrupted_document_is_refused_untouched() {
    let corrupt = b"<!DOCTYPE html>\nnot a valid document".to_vec();
    let before = corrupt.clone();
    let frag = img_fragment(&b"x.jpg".to_vec());
    assert_eq!(splice(&corrupt, &frag), Err(SpliceError::FooterMismatch));
    assert_eq!(corrupt, before);
}

#[test]
fn short_document_is_refused() {
    let corrupt = b"<p>".to_vec();
    let frag = img_fragment(&b"x.jpg".to_vec());
    assert_eq!(splice(&corrupt, &frag), Err(SpliceError::FooterMismatch));
}

#[test]
fn ordinary_filenames_are_stored_unchanged() {
    assert_eq!(sanitize_name(&b"x.jpg".to_vec()), b"x.jpg".to_vec());
    assert_eq!(sanitize_name(&b"My_Cat-2.PNG".to_vec()), b"My_Cat-2.PNG".to_vec());
}

#[test]
fn path_traversal_is_neutralized_in_stored_names() {
    assert_eq!(sanitize_name(&b"../../etc/passwd".to_vec()), b"_._.._etc_passwd".to_vec());
    assert_eq!(sanitize_name(&b"..".to_vec()), b"_.".to_vec());
    assert_eq!(sanitize_name(&b".hidden".to_vec()), b"_hidden".to_vec());
    assert_eq!(sanitize_name(&b"a\\b/c".to_vec()), b"a_b_c".to_vec());
}

#[test]
fn fragment_references_the_sanitized_name() {
    let frag = upload_outcome(true, &b"a/b.jpg".to_vec()).unwrap();
    assert_eq!(
        frag.bytes().as_slice(),
        br#"<img src="media/a_b.jpg" loading="lazy">"#
    );
}

#[test]
fn upload_without_media_field_is_a_client_error() {
    let outcome = upload_outcome(false, &b"x.jpg".to_vec());
    assert!(matches!(outcome, Err(UploadError::MissingMediaField)));
}

#[test]
fn upload_without_filename_is_a_client_error() {
    let outcome = upload_outcome(true, &Vec::new());
    assert!(matches!(outcome, Err(UploadError::MissingFilename)));
}

#[test]
fn rejected_upload_leaves_queue_untouched() {
    let mut queue = UploadQueue::new();
    assert_eq!(
        queue.admit_upload(false, &b"x.jpg".to_vec()),
        Err(UploadError::MissingMediaField)
    );
    assert_eq!(queue.admit_upload(true, &Vec::new()), Err(UploadError::MissingFilename));
    assert!(queue.is_empty());
}

#[test]
fn admitted_upload_is_enqueued() {
    let mut queue = UploadQueue::new();
    assert_eq!(queue.admit_upload(true, &b"x.jpg".to_vec()), Ok(()));
    assert_eq!(queue.len(), 1);
    let frag = queue.dequeue().unwrap();
    assert_eq!(
        frag.bytes().as_slice(),
        br#"<img src="media/x.jpg" loading="lazy">"#
    );
}

#[test]
fn dequeue_is_lifo() {
    let mut queue = UploadQueue::new();
    queue.enqueue(img_fragment(&b"first.jpg".to_vec()));
    queue.enqueue(img_fragment(&b"second.jpg".to_vec()));
    let top = queue.dequeue().unwrap();
    assert_eq!(top.bytes().as_slice(), br#"<img src="media/second.jpg" loading="lazy">"#);
    let next = queue.dequeue().unwrap();
    assert_eq!(next.bytes().as_slice(), br#"<img src="media/first.jpg" loading="lazy">"#);
    assert!(queue.dequeue().is_none());
}

#[test]
fn later_upload_renders_before_earlier_one() {
    let mut queue = UploadQueue::new();
    queue.enqueue(img_fragment(&b"a.jpg".to_vec()));
    queue.enqueue(img_fragment(&b"b.jpg".to_vec()));

    let mut doc = bootstrap_document();
    for _ in 0..2 {
        match worker_step(&mut queue, &doc) {
            RebuildOutcome::Rebuilt(d) => doc = d,
            _ => panic!("worker should have rebuilt"),
        }
    }
    let pos_a = find(&doc, br#"<img src="media/a.jpg""#).unwrap();
    let pos_b = find(&doc, br#"<img src="media/b.jpg""#).unwrap();
    assert!(pos_b < pos_a);
}

#[test]
fn worker_is_idle_on_an_empty_queue() {
    let mut queue = UploadQueue::new();
    let doc = bootstrap_document();
    assert!(matches!(worker_step(&mut queue, &doc), RebuildOutcome::Idle));
}

#[test]
fn worker_reports_footer_mismatch_and_keeps_the_fragment() {
    let mut queue = UploadQueue::new();
    queue.enqueue(img_fragment(&b"x.jpg".to_vec()));
    let corrupt = b"<!DOCTYPE html>\ntruncated".to_vec();
    match worker_step(&mut queue, &corrupt) {
        RebuildOutcome::Failed(e) => assert_eq!(e, SpliceError::FooterMismatch),
        _ => panic!("worker should have failed on a corrupted document"),
    }
    assert_eq!(queue.len(), 1);
}

#[test]
fn draining_inserts_every_upload_exactly_once() {
    let names: Vec<&[u8]> = vec![b"n0.png", b"n1.png", b"n2.png", b"n3.png", b"n4.png"];
    let mut queue = UploadQueue::new();
    for name in &names {
        queue.enqueue(img_fragment(&name.to_vec()));
    }
    let doc = drain_queue(&mut queue, bootstrap_document());
    assert!(queue.is_empty());
    assert_eq!(count(&doc, b"<img "), names.len());
    let mut positions = Vec::new();
    for name in &names {
        let mut marker = br#"<img src="media/"#.to_vec();
        marker.extend_from_slice(name);
        assert_eq!(count(&doc, &marker), 1);
        positions.push(find(&doc, &marker).unwrap());
    }
    // Most recently enqueued first: positions strictly decrease with
    // enqueue order.
    for w in positions.windows(2) {
        assert!(w[1] < w[0]);
    }
    assert!(doc.ends_with(&footer_bytes()));
}

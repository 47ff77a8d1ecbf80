//! Fragments: the markup snippet built for one upload.
//!
//! A successful upload of a file named `n` yields the bytes of
//! `<img src="media/n" loading="lazy">`, pending insertion into the
//! shared document. An upload without a media field or without a
//! filename is a caller error and yields no fragment.

use vstd::prelude::*;

verus! {

/// Bytes standing before the filename in a fragment: the ASCII bytes
/// of `<img src="media/`.
pub open spec fn img_prefix() -> Seq<u8> {
    seq![60, 105, 109, 103, 32, 115, 114, 99, 61, 34, 109, 101, 100, 105, 97, 47]
}

/// Bytes standing after the filename in a fragment: the ASCII bytes
/// of `" loading="lazy">`.
pub open spec fn img_suffix() -> Seq<u8> {
    seq![34, 32, 108, 111, 97, 100, 105, 110, 103, 61, 34, 108, 97, 122, 121, 34, 62]
}

/// The markup that renders the media file named `name`.
pub open spec fn img_markup(name: Seq<u8>) -> Seq<u8> {
    img_prefix() + name + img_suffix()
}

/// Bytes a stored media name may hold: ASCII letters, digits, `-`,
/// `_`, and `.` anywhere but first. Path separators never qualify, so
/// a stored name cannot climb out of the media directory, and a name
/// cannot start with a dot (ruling out `.`, `..` and hidden files).
pub open spec fn allowed_name_byte(b: u8, i: int) -> bool {
    ||| 48 <= b <= 57
    ||| 65 <= b <= 90
    ||| 97 <= b <= 122
    ||| b == 45
    ||| b == 95
    ||| (b == 46 && i > 0)
}

/// The storage identifier derived from a client-supplied filename:
/// the same length, with every byte that does not qualify replaced by
/// `_`.
pub open spec fn sanitized(name: Seq<u8>) -> Seq<u8> {
    Seq::new(name.len(), |i: int| if allowed_name_byte(name[i], i) { name[i] } else { 95u8 })
}

/// Derive the path-safe storage identifier for a client-supplied
/// filename; the media file is stored, and referenced by the
/// fragment, under this name.
pub fn sanitize_name(file_name: &Vec<u8>) -> (r: Vec<u8>)
    ensures
        r@ == sanitized(file_name@),
{
    let mut r: Vec<u8> = Vec::new();
    let mut i: usize = 0;
    while i < file_name.len()
        invariant
            i <= file_name@.len(),
            r@ == sanitized(file_name@).take(i as int),
        decreases file_name@.len() - i,
    {
        let b = file_name[i];
        let ok = (48 <= b && b <= 57) || (65 <= b && b <= 90) || (97 <= b && b <= 122) || b == 45
            || b == 95 || (b == 46 && i > 0);
        if ok {
            r.push(b);
        } else {
            r.push(95);
        }
        proof {
            assert(r@ =~= sanitized(file_name@).take(i + 1));
        }
        i += 1;
    }
    proof {
        assert(sanitized(file_name@).take(file_name@.len() as int) =~= sanitized(file_name@));
    }
    r
}

/// Why an upload was rejected without a fragment being built.
#[derive(Debug, PartialEq, Eq, Structural)]
pub enum UploadError {
    /// The request carried no part named `media`.
    MissingMediaField,
    /// The media part carried an empty filename.
    MissingFilename,
}

/// An immutable markup snippet derived from one upload, awaiting
/// insertion into the document.
pub struct Fragment {
    bytes: Vec<u8>,
}

impl View for Fragment {
    type V = Seq<u8>;

    closed spec fn view(&self) -> Seq<u8> {
        self.bytes@
    }
}

impl Fragment {
    /// The fragment's bytes, read-only.
    pub fn bytes(&self) -> (r: &Vec<u8>)
        ensures
            r@ == self@,
    {
        &self.bytes
    }
}

/// Build the fragment rendering the media file named `file_name`.
pub fn img_fragment(file_name: &Vec<u8>) -> (r: Fragment)
    ensures
        r@ == img_markup(file_name@),
{
    let mut v: Vec<u8> = Vec::new();
    v.push(60);
    v.push(105);
    v.push(109);
    v.push(103);
    v.push(32);
    v.push(115);
    v.push(114);
    v.push(99);
    v.push(61);
    v.push(34);
    v.push(109);
    v.push(101);
    v.push(100);
    v.push(105);
    v.push(97);
    v.push(47);
    proof {
        assert(v@ =~= img_prefix());
    }
    let mut i: usize = 0;
    while i < file_name.len()
        invariant
            v@ == img_prefix() + file_name@.take(i as int),
            i <= file_name@.len(),
        decreases file_name@.len() - i,
    {
        v.push(file_name[i]);
        proof {
            assert(v@ =~= img_prefix() + file_name@.take(i + 1));
        }
        i += 1;
    }
    proof {
        assert(file_name@.take(file_name@.len() as int) =~= file_name@);
    }
    v.push(34);
    v.push(32);
    v.push(108);
    v.push(111);
    v.push(97);
    v.push(100);
    v.push(105);
    v.push(110);
    v.push(103);
    v.push(61);
    v.push(34);
    v.push(108);
    v.push(97);
    v.push(122);
    v.push(121);
    v.push(34);
    v.push(62);
    proof {
        assert(v@ =~= img_markup(file_name@));
    }
    Fragment { bytes: v }
}

/// Decide the fate of one upload request: the request must carry a
/// part named `media` bearing a non-empty filename; then and only
/// then a fragment is built, referencing the sanitized storage name.
pub fn upload_outcome(saw_media_field: bool, file_name: &Vec<u8>) -> (r: Result<
    Fragment,
    UploadError,
>)
    ensures
        !saw_media_field ==> (r matches Err(e) && e == UploadError::MissingMediaField),
        saw_media_field && file_name@.len() == 0 ==> (r matches Err(e) && e
            == UploadError::MissingFilename),
        saw_media_field && file_name@.len() > 0 ==> (r matches Ok(f) && f@ == img_markup(
            sanitized(file_name@),
        )),
{
    if !saw_media_field {
        Err(UploadError::MissingMediaField)
    } else if file_name.len() == 0 {
        Err(UploadError::MissingFilename)
    } else {
        let stored = sanitize_name(file_name);
        Ok(img_fragment(&stored))
    }
}

} // verus!

//! Images: content addresses, types and the limits of an attachment.
use sha2::Digest;
use vstd::prelude::*;

use crate::message::{ImagePart, ImageView};
use crate::path::{extension, join_path, joined_path, path_extension};
use crate::text::{decimal, decimal_text, lower, lowered, same_text};

verus! {

/// Size limit of a single image in bytes.
pub const IMAGE_MAX_BYTES: usize = 10 * 1024 * 1024;

/// The SHA-256 digest of a byte string.
pub uninterp spec fn sha256_of(bytes: Seq<u8>) -> Seq<u8>;

/// `sha2::Sha256::digest`: the digest is a function of the bytes and 32 bytes
/// long.
#[verifier::external_body]
pub(crate) fn sha256(bytes: &[u8]) -> (r: Vec<u8>)
    ensures
        r@ == sha256_of(bytes@),
        r@.len() == 32,
{
    sha2::Sha256::digest(bytes).to_vec()
}

/// The lower-case hexadecimal digit for `d`.
pub open spec fn hex_char(d: int) -> char {
    if d < 10 {
        ('0' as int + d) as char
    } else {
        ('a' as int + (d - 10)) as char
    }
}

/// A byte string in lower-case hexadecimal, two digits a byte.
pub open spec fn hex_of(bytes: Seq<u8>) -> Seq<char>
    decreases bytes.len(),
{
    if bytes.len() == 0 {
        Seq::empty()
    } else {
        hex_of(bytes.drop_last()).push(hex_char(bytes.last() as int / 16)).push(
            hex_char(bytes.last() as int % 16),
        )
    }
}

/// The lower-case hexadecimal digit for `d`.
pub fn hex_digit(d: u8) -> (r: char)
    requires
        d < 16,
    ensures
        r == hex_char(d as int),
{
    if d < 10 {
        (48 + d) as char
    } else {
        (97 + (d - 10)) as char
    }
}

/// A byte string in lower-case hexadecimal, two digits a byte.
pub fn hex(bytes: &Vec<u8>) -> (r: String)
    ensures
        r@ == hex_of(bytes@),
{
    let mut out = String::new();
    let mut i: usize = 0;
    while i < bytes.len()
        invariant
            i <= bytes.len(),
            out@ == hex_of(bytes@.take(i as int)),
        decreases bytes.len() - i,
    {
        out.push(hex_digit(bytes[i] / 16));
        out.push(hex_digit(bytes[i] % 16));
        i += 1;
        proof {
            let head = bytes@.take(i as int);
            assert(head.drop_last() =~= bytes@.take(i - 1));
            assert(head.last() == bytes@[i - 1]);
        }
    }
    assert(bytes@.take(bytes@.len() as int) =~= bytes@);
    out
}

proof fn lemma_hex_len(bytes: Seq<u8>)
    ensures
        hex_of(bytes).len() == 2 * bytes.len(),
    decreases bytes.len(),
{
    if bytes.len() > 0 {
        lemma_hex_len(bytes.drop_last());
    }
}

/// SHA-256 hex digest of `bytes`: the content address used as file name.
pub fn image_sha256(bytes: &[u8]) -> (r: String)
    ensures
        r@ == hex_of(sha256_of(bytes@)),
        r@.len() == 64,
{
    let digest = sha256(bytes);
    proof {
        lemma_hex_len(digest@);
    }
    hex(&digest)
}

/// The MIME type of an image by its extension.
pub open spec fn mime_of_extension(extension: Option<Seq<char>>) -> Option<Seq<char>> {
    match extension {
        Some(ext) => if lowered(ext) == "png"@ {
            Some("image/png"@)
        } else if lowered(ext) == "jpeg"@ || lowered(ext) == "jpg"@ {
            Some("image/jpeg"@)
        } else if lowered(ext) == "webp"@ {
            Some("image/webp"@)
        } else if lowered(ext) == "gif"@ {
            Some("image/gif"@)
        } else {
            None
        },
        None => None,
    }
}

/// MIME type by a white list of extensions, in any case of letters: png,
/// jpeg/jpg, webp, gif.
pub fn image_mime_from_extension(path: &str) -> (r: Option<&'static str>)
    ensures
        r is Some <==> mime_of_extension(extension(path@)) is Some,
        r matches Some(mime) ==> mime_of_extension(extension(path@)) == Some(mime@),
{
    let ext = match path_extension(path) {
        Some(ext) => lower(ext.as_str()),
        None => return None,
    };
    if same_text(ext.as_str(), "png") {
        Some("image/png")
    } else if same_text(ext.as_str(), "jpeg") || same_text(ext.as_str(), "jpg") {
        Some("image/jpeg")
    } else if same_text(ext.as_str(), "webp") {
        Some("image/webp")
    } else if same_text(ext.as_str(), "gif") {
        Some("image/gif")
    } else {
        None
    }
}

/// The directory of the image store, from the two places that it may stand in:
/// `$XDG_STATE_HOME` where that is set and not empty, else the home directory.
pub open spec fn store_directory(
    state_home: Option<Seq<char>>,
    home: Option<Seq<char>>,
) -> Option<Seq<char>> {
    match state_home {
        Some(state) if state.len() > 0 => Some(joined_path(state, "e-agent/images"@)),
        _ => match home {
            Some(home) => Some(joined_path(home, ".config/e-agent/images"@)),
            None => None,
        },
    }
}

/// The directory of the image store.
pub fn image_store_dir(state_home: Option<&str>, home: Option<&str>) -> (r: Option<String>)
    ensures
        r.deep_view() == store_directory(state_home.deep_view(), home.deep_view()),
{
    if let Some(state) = state_home {
        if !state.is_empty() {
            return Some(join_path(state, "e-agent/images"));
        }
    }
    match home {
        Some(home) => Some(join_path(home, ".config/e-agent/images")),
        None => None,
    }
}

/// The refusal of a file that is no image by its extension.
pub open spec fn image_type_error(path: Seq<char>) -> Seq<char> {
    "unsupported image type for "@ + path + ": expected .png, .jpeg/.jpg, .webp, or .gif"@
}

/// The refusal of an image that is too large.
pub open spec fn image_size_error(path: Seq<char>, len: nat) -> Seq<char> {
    "image "@ + path + " is "@ + decimal(len) + " bytes, exceeding the "@ + decimal(
        IMAGE_MAX_BYTES as nat / 1048576,
    ) + " MiB limit"@
}

/// Check an image by its extension, before it is read.
pub fn check_image_type(path: &str) -> (r: Result<&'static str, String>)
    ensures
        match r {
            Ok(mime) => mime_of_extension(extension(path@)) == Some(mime@),
            Err(error) => mime_of_extension(extension(path@)) is None && error@ == image_type_error(
                path@,
            ),
        },
{
    match image_mime_from_extension(path) {
        Some(mime) => Ok(mime),
        None => {
            let mut error = "unsupported image type for ".to_owned();
            error.push_str(path);
            error.push_str(": expected .png, .jpeg/.jpg, .webp, or .gif");
            Err(error)
        },
    }
}

/// Check the bytes of an image against the size limit and make the reference
/// under which they are stored.
pub fn image_part(path: &str, mime: &str, bytes: &[u8]) -> (r: Result<ImagePart, String>)
    ensures
        match r {
            Ok(part) => bytes@.len() <= IMAGE_MAX_BYTES && part.hash@ == hex_of(sha256_of(bytes@))
                && part.mime@ == mime@,
            Err(error) => bytes@.len() > IMAGE_MAX_BYTES && error@ == image_size_error(
                path@,
                bytes@.len(),
            ),
        },
{
    if bytes.len() > IMAGE_MAX_BYTES {
        let mut error = "image ".to_owned();
        error.push_str(path);
        error.push_str(" is ");
        error.push_str(decimal_text(bytes.len() as u64).as_str());
        error.push_str(" bytes, exceeding the ");
        error.push_str(decimal_text((IMAGE_MAX_BYTES / (1024 * 1024)) as u64).as_str());
        error.push_str(" MiB limit");
        assert(error@ =~= image_size_error(path@, bytes@.len()));
        return Err(error);
    }
    Ok(ImagePart { hash: image_sha256(bytes), mime: mime.to_owned() })
}

/// The refusal where no directory is known for images.
pub const NO_IMAGE_STORE: &'static str = "no image store: XDG_STATE_HOME or HOME is not set";

/// What becomes of an image that the user attaches: its reference and the file
/// that it is stored in, or the error. `read` is what reading the file brought;
/// it counts only where the type is accepted.
pub open spec fn attached(
    path: Seq<char>,
    read: Result<Seq<u8>, Seq<char>>,
    store: Option<Seq<char>>,
) -> Result<(ImageView, Seq<char>), Seq<char>> {
    match mime_of_extension(extension(path)) {
        None => Err(image_type_error(path)),
        Some(mime) => match read {
            Err(error) => Err("cannot read image "@ + path + ": "@ + error),
            Ok(bytes) => if bytes.len() > IMAGE_MAX_BYTES {
                Err(image_size_error(path, bytes.len()))
            } else {
                match store {
                    None => Err(NO_IMAGE_STORE@),
                    Some(store) => {
                        let hash = hex_of(sha256_of(bytes));
                        Ok((ImageView { hash, mime }, joined_path(store, hash)))
                    },
                }
            },
        },
    }
}

/// The file of a stored image.
pub fn image_file(store: &str, hash: &str) -> (r: String)
    ensures
        r@ == joined_path(store@, hash@),
{
    join_path(store, hash)
}

/// What becomes of an image that the user attaches.
pub fn attach_image_from_path(
    path: &str,
    read: Result<Vec<u8>, String>,
    store: Option<&str>,
) -> (r: Result<(ImagePart, String), String>)
    ensures
        match r {
            Ok(attachment) => attached(
                path@,
                match read {
                    Ok(bytes) => Ok(bytes@),
                    Err(error) => Err(error@),
                },
                store.deep_view(),
            ) == Ok::<(ImageView, Seq<char>), Seq<char>>(
                (attachment.0.deep_view(), attachment.1@),
            ),
            Err(error) => attached(
                path@,
                match read {
                    Ok(bytes) => Ok(bytes@),
                    Err(error) => Err(error@),
                },
                store.deep_view(),
            ) == Err::<(ImageView, Seq<char>), Seq<char>>(error@),
        },
{
    let mime = match check_image_type(path) {
        Ok(mime) => mime,
        Err(error) => {
            return Err(error);
        },
    };
    let bytes = match read {
        Ok(bytes) => bytes,
        Err(error) => {
            let mut text = "cannot read image ".to_owned();
            text.push_str(path);
            text.push_str(": ");
            text.push_str(error.as_str());
            return Err(text);
        },
    };
    let part = match image_part(path, mime, bytes.as_slice()) {
        Ok(part) => part,
        Err(error) => {
            return Err(error);
        },
    };
    match store {
        None => Err(NO_IMAGE_STORE.to_owned()),
        Some(store) => {
            let file = image_file(store, part.hash.as_str());
            Ok((part, file))
        },
    }
}

/// An image is attached where its type is accepted, it can be read, it is not too
/// large and there is a store: under the digest of its bytes, with its type, in the
/// file of that name. Whatever is wrong is refused, the type first.
pub proof fn images_are_kept_under_their_digest(
    path: Seq<char>,
    read: Result<Seq<u8>, Seq<char>>,
    store: Option<Seq<char>>,
)
    ensures
        attached(path, read, store) is Ok <==> mime_of_extension(extension(path)) is Some
            && read is Ok && (read->Ok_0).len() <= 10_485_760 && store is Some,
        attached(path, read, store) matches Ok((part, file)) ==> {
            &&& part.hash == hex_of(sha256_of(read->Ok_0))
            &&& Some(part.mime) == mime_of_extension(extension(path))
            &&& file == joined_path(store->0, part.hash)
        },
        mime_of_extension(extension(path)) is None ==> attached(path, read, store) == Err::<
            (ImageView, Seq<char>),
            Seq<char>,
        >(
            "unsupported image type for "@ + path
                + ": expected .png, .jpeg/.jpg, .webp, or .gif"@,
        ),
{
}

/// The type of an image goes by its extension, in any case of letters, and only the
/// five extensions have one.
pub proof fn image_types_go_by_extension(ext: Seq<char>)
    ensures
        lowered(ext) == "png"@ ==> mime_of_extension(Some(ext)) == Some("image/png"@),
        lowered(ext) == "jpeg"@ || lowered(ext) == "jpg"@ ==> mime_of_extension(Some(ext)) == Some(
            "image/jpeg"@,
        ),
        lowered(ext) == "webp"@ ==> mime_of_extension(Some(ext)) == Some("image/webp"@),
        lowered(ext) == "gif"@ ==> mime_of_extension(Some(ext)) == Some("image/gif"@),
        mime_of_extension(Some(ext)) is Some ==> lowered(ext) == "png"@ || lowered(ext) == "jpeg"@
            || lowered(ext) == "jpg"@ || lowered(ext) == "webp"@ || lowered(ext) == "gif"@,
        mime_of_extension(None) is None,
{
    reveal_strlit("png");
    reveal_strlit("jpeg");
    reveal_strlit("jpg");
    reveal_strlit("webp");
    reveal_strlit("gif");
    assert("png"@.len() == 3 && "jpeg"@.len() == 4 && "jpg"@.len() == 3 && "webp"@.len() == 4
        && "gif"@.len() == 3);
    assert("png"@[0] == 'p' && "jpg"@[0] == 'j' && "gif"@[0] == 'g' && "jpeg"@[0] == 'j'
        && "webp"@[0] == 'w');
}

/// The store stands in the state directory where that is named, else in the home
/// directory.
pub proof fn the_store_stands_with_the_state(state: Seq<char>, home: Option<Seq<char>>)
    ensures
        state.len() > 0 ==> store_directory(Some(state), home) == Some(
            joined_path(state, "e-agent/images"@),
        ),
        store_directory(Some(Seq::empty()), home) == store_directory(None, home),
        home matches Some(dir) ==> store_directory(None, home) == Some(
            joined_path(dir, ".config/e-agent/images"@),
        ),
        store_directory(None, None) is None,
{
}

/// The value of a hexadecimal digit.
pub open spec fn hex_value(c: char) -> int {
    if '0' <= c <= '9' {
        c as int - '0' as int
    } else {
        c as int - 'a' as int + 10
    }
}

/// A byte string is written with two digits a byte, the high one first, from which
/// every byte can be read back.
pub proof fn hexadecimal_is_read_back(bytes: Seq<u8>, i: int)
    requires
        0 <= i < bytes.len(),
    ensures
        hex_of(bytes).len() == 2 * bytes.len(),
        16 * hex_value(hex_of(bytes)[2 * i]) + hex_value(hex_of(bytes)[2 * i + 1]) == bytes[i],
    decreases bytes.len(),
{
    let head = bytes.drop_last();
    lemma_hex_len(head);
    let last = bytes.last() as int;
    lemma_hex_value(last / 16);
    lemma_hex_value(last % 16);
    if i < head.len() {
        hexadecimal_is_read_back(head, i);
        assert(hex_of(bytes)[2 * i] == hex_of(head)[2 * i]);
        assert(hex_of(bytes)[2 * i + 1] == hex_of(head)[2 * i + 1]);
    }
}

proof fn lemma_hex_value(d: int)
    requires
        0 <= d < 16,
    ensures
        hex_value(hex_char(d)) == d,
{
}

} // verus!

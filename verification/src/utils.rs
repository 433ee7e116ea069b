//! Small helpers around the handlers: the MIME table keyed by file
//! extension.

use vstd::prelude::*;

verus! {

use vstd::string::StringSliceAdditionalSpecFns;
use vstd::string::StringExecFns;
use crate::text::{string_bytes, str_to_bytes, bytes_eq, subvec};

/// Position of the last occurrence of `b` in `s`, if any.
pub open spec fn last_byte(s: Seq<u8>, b: u8) -> Option<int>
    decreases s.len(),
{
    if s.len() == 0 {
        None
    } else if s.last() == b {
        Some(s.len() - 1)
    } else {
        last_byte(s.drop_last(), b)
    }
}

/// `last_byte` finds the greatest occurrence, and `None` means there is none.
pub proof fn lemma_last_byte(s: Seq<u8>, b: u8)
    ensures
        match last_byte(s, b) {
            Some(i) => 0 <= i < s.len() && s[i] == b && forall|j: int|
                i < j < s.len() ==> s[j] != b,
            None => forall|j: int| 0 <= j < s.len() ==> s[j] != b,
        },
    decreases s.len(),
{
    if s.len() == 0 {
    } else if s.last() == b {
    } else {
        lemma_last_byte(s.drop_last(), b);
        let t = s.drop_last();
        assert(forall|j: int| 0 <= j < s.len() - 1 ==> s[j] == t[j]);
    }
}

/// Finds the last occurrence of `b` in `v`.
pub fn rfind_byte(v: &Vec<u8>, b: u8) -> (r: Option<usize>)
    ensures
        match r {
            Some(i) => last_byte(v@, b) == Some(i as int),
            None => last_byte(v@, b) is None,
        },
{
    proof {
        lemma_last_byte(v@, b);
    }
    let mut i: usize = v.len();
    while i > 0
        invariant
            i <= v@.len(),
            forall|j: int| i <= j < v@.len() ==> v@[j] != b,
        decreases i,
    {
        i = i - 1;
        if v[i] == b {
            proof {
                lemma_last_byte(v@, b);
                match last_byte(v@, b) {
                    Some(k) => {
                        if k < i {
                            assert(v@[i as int] != b);
                        }
                        if k > i {
                            assert(v@[k] != b);
                        }
                    },
                    None => {
                        assert(v@[i as int] != b);
                    },
                }
            }
            return Some(i);
        }
    }
    proof {
        lemma_last_byte(v@, b);
        if last_byte(v@, b) is Some {
            let k = last_byte(v@, b)->Some_0;
            assert(v@[k] != b);
        }
    }
    None
}

/// The extension of the final path component: what follows the last `.` of
/// the file name, unless the name has no dot or only a leading one.
pub open spec fn ext_of(p: Seq<u8>) -> Seq<u8> {
    let name = match last_byte(p, 47) {
        Some(i) => p.subrange(i + 1, p.len() as int),
        None => p,
    };
    match last_byte(name, 46) {
        Some(j) => if j > 0 {
            name.subrange(j + 1, name.len() as int)
        } else {
            Seq::<u8>::empty()
        },
        None => Seq::<u8>::empty(),
    }
}

/// The `Content-Type` value for an extension; unknown extensions fall back
/// to safe binary delivery.
pub open spec fn mime_of(e: Seq<u8>) -> Seq<u8> {
    if e == "html".spec_bytes() || e == "htm".spec_bytes() || e == "php".spec_bytes() {
        "text/html; charset=utf-8".spec_bytes()
    } else if e == "js".spec_bytes() || e == "mjs".spec_bytes() {
        "text/javascript".spec_bytes()
    } else if e == "css".spec_bytes() {
        "text/css".spec_bytes()
    } else if e == "json".spec_bytes() {
        "application/json".spec_bytes()
    } else if e == "xml".spec_bytes() {
        "application/xml".spec_bytes()
    } else if e == "txt".spec_bytes() {
        "text/plain".spec_bytes()
    } else if e == "md".spec_bytes() {
        "text/markdown".spec_bytes()
    } else if e == "csv".spec_bytes() {
        "text/csv".spec_bytes()
    } else if e == "ico".spec_bytes() {
        "image/x-icon".spec_bytes()
    } else if e == "png".spec_bytes() {
        "image/png".spec_bytes()
    } else if e == "jpg".spec_bytes() || e == "jpeg".spec_bytes() {
        "image/jpeg".spec_bytes()
    } else if e == "gif".spec_bytes() {
        "image/gif".spec_bytes()
    } else if e == "svg".spec_bytes() {
        "image/svg+xml".spec_bytes()
    } else if e == "webp".spec_bytes() {
        "image/webp".spec_bytes()
    } else if e == "bmp".spec_bytes() {
        "image/bmp".spec_bytes()
    } else if e == "tiff".spec_bytes() || e == "tif".spec_bytes() {
        "image/tiff".spec_bytes()
    } else if e == "mp3".spec_bytes() {
        "audio/mpeg".spec_bytes()
    } else if e == "wav".spec_bytes() {
        "audio/wav".spec_bytes()
    } else if e == "ogg".spec_bytes() {
        "audio/ogg".spec_bytes()
    } else if e == "flac".spec_bytes() {
        "audio/flac".spec_bytes()
    } else if e == "mp4".spec_bytes() {
        "video/mp4".spec_bytes()
    } else if e == "webm".spec_bytes() {
        "video/webm".spec_bytes()
    } else if e == "avi".spec_bytes() {
        "video/x-msvideo".spec_bytes()
    } else if e == "mkv".spec_bytes() {
        "video/x-matroska".spec_bytes()
    } else if e == "pdf".spec_bytes() {
        "application/pdf".spec_bytes()
    } else if e == "doc".spec_bytes() {
        "application/msword".spec_bytes()
    } else if e == "docx".spec_bytes() {
        "application/vnd.openxmlformats-officedocument.wordprocessingml.document".spec_bytes()
    } else if e == "xls".spec_bytes() {
        "application/vnd.ms-excel".spec_bytes()
    } else if e == "xlsx".spec_bytes() {
        "application/vnd.openxmlformats-officedocument.spreadsheetml.sheet".spec_bytes()
    } else if e == "ppt".spec_bytes() {
        "application/vnd.ms-powerpoint".spec_bytes()
    } else if e == "pptx".spec_bytes() {
        "application/vnd.openxmlformats-officedocument.presentationml.presentation".spec_bytes()
    } else if e == "zip".spec_bytes() {
        "application/zip".spec_bytes()
    } else if e == "tar".spec_bytes() {
        "application/x-tar".spec_bytes()
    } else if e == "gz".spec_bytes() {
        "application/gzip".spec_bytes()
    } else if e == "7z".spec_bytes() {
        "application/x-7z-compressed".spec_bytes()
    } else if e == "rar".spec_bytes() {
        "application/vnd.rar".spec_bytes()
    } else if e == "ttf".spec_bytes() {
        "font/ttf".spec_bytes()
    } else if e == "otf".spec_bytes() {
        "font/otf".spec_bytes()
    } else if e == "woff".spec_bytes() {
        "font/woff".spec_bytes()
    } else if e == "woff2".spec_bytes() {
        "font/woff2".spec_bytes()
    } else {
        "application/octet-stream".spec_bytes()
    }
}

/// The `Content-Type` value for a file path, from its extension.
pub fn get_mime_tipe(path: &String) -> (r: String)
    ensures
        string_bytes(r) == mime_of(ext_of(string_bytes(*path))),
{
    let pb = str_to_bytes(path.as_str());
    let pn = pb.len();
    let name: Vec<u8>;
    match rfind_byte(&pb, 47) {
        Some(i) => {
            proof {
                lemma_last_byte(pb@, 47);
            }
            name = subvec(&pb, i + 1, pn);
        },
        None => {
            name = subvec(&pb, 0, pb.len());
            proof {
                assert(name@ =~= pb@);
            }
        },
    }
    let nn = name.len();
    let ext: Vec<u8>;
    match rfind_byte(&name, 46) {
        Some(j) if j > 0 => {
            proof {
                lemma_last_byte(name@, 46);
            }
            ext = subvec(&name, j + 1, nn);
        },
        _ => {
            ext = Vec::new();
            proof {
                assert(ext@ =~= Seq::<u8>::empty());
            }
        },
    }
    let m = if bytes_eq(&ext, &str_to_bytes("html")) || bytes_eq(&ext, &str_to_bytes("htm"))
        || bytes_eq(&ext, &str_to_bytes("php")) {
        "text/html; charset=utf-8"
    } else if bytes_eq(&ext, &str_to_bytes("js")) || bytes_eq(&ext, &str_to_bytes("mjs")) {
        "text/javascript"
    } else if bytes_eq(&ext, &str_to_bytes("css")) {
        "text/css"
    } else if bytes_eq(&ext, &str_to_bytes("json")) {
        "application/json"
    } else if bytes_eq(&ext, &str_to_bytes("xml")) {
        "application/xml"
    } else if bytes_eq(&ext, &str_to_bytes("txt")) {
        "text/plain"
    } else if bytes_eq(&ext, &str_to_bytes("md")) {
        "text/markdown"
    } else if bytes_eq(&ext, &str_to_bytes("csv")) {
        "text/csv"
    } else if bytes_eq(&ext, &str_to_bytes("ico")) {
        "image/x-icon"
    } else if bytes_eq(&ext, &str_to_bytes("png")) {
        "image/png"
    } else if bytes_eq(&ext, &str_to_bytes("jpg")) || bytes_eq(&ext, &str_to_bytes("jpeg")) {
        "image/jpeg"
    } else if bytes_eq(&ext, &str_to_bytes("gif")) {
        "image/gif"
    } else if bytes_eq(&ext, &str_to_bytes("svg")) {
        "image/svg+xml"
    } else if bytes_eq(&ext, &str_to_bytes("webp")) {
        "image/webp"
    } else if bytes_eq(&ext, &str_to_bytes("bmp")) {
        "image/bmp"
    } else if bytes_eq(&ext, &str_to_bytes("tiff")) || bytes_eq(&ext, &str_to_bytes("tif")) {
        "image/tiff"
    } else if bytes_eq(&ext, &str_to_bytes("mp3")) {
        "audio/mpeg"
    } else if bytes_eq(&ext, &str_to_bytes("wav")) {
        "audio/wav"
    } else if bytes_eq(&ext, &str_to_bytes("ogg")) {
        "audio/ogg"
    } else if bytes_eq(&ext, &str_to_bytes("flac")) {
        "audio/flac"
    } else if bytes_eq(&ext, &str_to_bytes("mp4")) {
        "video/mp4"
    } else if bytes_eq(&ext, &str_to_bytes("webm")) {
        "video/webm"
    } else if bytes_eq(&ext, &str_to_bytes("avi")) {
        "video/x-msvideo"
    } else if bytes_eq(&ext, &str_to_bytes("mkv")) {
        "video/x-matroska"
    } else if bytes_eq(&ext, &str_to_bytes("pdf")) {
        "application/pdf"
    } else if bytes_eq(&ext, &str_to_bytes("doc")) {
        "application/msword"
    } else if bytes_eq(&ext, &str_to_bytes("docx")) {
        "application/vnd.openxmlformats-officedocument.wordprocessingml.document"
    } else if bytes_eq(&ext, &str_to_bytes("xls")) {
        "application/vnd.ms-excel"
    } else if bytes_eq(&ext, &str_to_bytes("xlsx")) {
        "application/vnd.openxmlformats-officedocument.spreadsheetml.sheet"
    } else if bytes_eq(&ext, &str_to_bytes("ppt")) {
        "application/vnd.ms-powerpoint"
    } else if bytes_eq(&ext, &str_to_bytes("pptx")) {
        "application/vnd.openxmlformats-officedocument.presentationml.presentation"
    } else if bytes_eq(&ext, &str_to_bytes("zip")) {
        "application/zip"
    } else if bytes_eq(&ext, &str_to_bytes("tar")) {
        "application/x-tar"
    } else if bytes_eq(&ext, &str_to_bytes("gz")) {
        "application/gzip"
    } else if bytes_eq(&ext, &str_to_bytes("7z")) {
        "application/x-7z-compressed"
    } else if bytes_eq(&ext, &str_to_bytes("rar")) {
        "application/vnd.rar"
    } else if bytes_eq(&ext, &str_to_bytes("ttf")) {
        "font/ttf"
    } else if bytes_eq(&ext, &str_to_bytes("otf")) {
        "font/otf"
    } else if bytes_eq(&ext, &str_to_bytes("woff")) {
        "font/woff"
    } else if bytes_eq(&ext, &str_to_bytes("woff2")) {
        "font/woff2"
    } else {
        "application/octet-stream"
    };
    String::from_str(m)
}

} // verus!

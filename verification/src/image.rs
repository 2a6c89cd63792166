//! How an image request is served: which object is fetched, which
//! processing the object store applies, and which content type is sent back.
use vstd::prelude::*;
use vstd::string::*;

use crate::errors::AppError;
use crate::text::{decimal, lowercase_of, push_decimal, str_eq, to_lowercase};

verus! {

/// The part of `s` after its last `.` (all of `s` when it holds none).
pub open spec fn last_segment(s: Seq<char>) -> Seq<char>
    decreases s.len(),
{
    if s.len() == 0 {
        s
    } else if s.last() == '.' {
        Seq::empty()
    } else {
        last_segment(s.drop_last()).push(s.last())
    }
}

/// The MIME type for a lower-case file extension; JPEG when it is not known.
pub open spec fn content_type_for(ext: Seq<char>) -> Seq<char> {
    if ext == "png"@ {
        "image/png"@
    } else if ext == "gif"@ {
        "image/gif"@
    } else if ext == "webp"@ {
        "image/webp"@
    } else if ext == "bmp"@ {
        "image/bmp"@
    } else {
        "image/jpeg"@
    }
}

/// The extension of a file id: the part after its last `.`; `None` when
/// the id holds no `.`.
pub open spec fn extension_of(file_id: Seq<char>) -> Option<Seq<char>> {
    if file_id.contains('.') {
        Some(last_segment(file_id))
    } else {
        None
    }
}

/// The MIME type of a stored file, chosen by its lower-cased extension; an
/// id without extension is served as JPEG.
pub open spec fn file_content_type(file_id: Seq<char>) -> Seq<char> {
    match extension_of(file_id) {
        Some(ext) => content_type_for(lowercase_of(ext)),
        None => "image/jpeg"@,
    }
}

proof fn lemma_last_segment_from(s: Seq<char>, k: int)
    requires
        0 <= k <= s.len(),
        k == 0 || s[k - 1] == '.',
        forall|x: int| k <= x < s.len() ==> s[x] != '.',
    ensures
        last_segment(s) == s.subrange(k, s.len() as int),
    decreases s.len(),
{
    if s.len() > 0 {
        if k == s.len() {
            assert(s.subrange(k, s.len() as int) =~= Seq::<char>::empty());
        } else {
            lemma_last_segment_from(s.drop_last(), k);
            assert(s.drop_last().subrange(k, s.len() - 1).push(s.last()) =~= s.subrange(
                k,
                s.len() as int,
            ));
        }
    }
}

/// Each known image extension is served as `image/` followed by the
/// extension itself, and every other extension as `image/jpeg`.
pub proof fn law_known_extensions_name_their_type(ext: Seq<char>)
    ensures
        (ext == "png"@ || ext == "gif"@ || ext == "webp"@ || ext == "bmp"@) ==> content_type_for(ext)
            == "image/"@ + ext,
        !(ext == "png"@ || ext == "gif"@ || ext == "webp"@ || ext == "bmp"@) ==> content_type_for(ext)
            == "image/jpeg"@,
{
    reveal_strlit("png");
    reveal_strlit("gif");
    reveal_strlit("webp");
    reveal_strlit("bmp");
    reveal_strlit("image/");
    reveal_strlit("image/png");
    reveal_strlit("image/gif");
    reveal_strlit("image/webp");
    reveal_strlit("image/bmp");
    assert("image/png"@ =~= "image/"@ + "png"@);
    assert("image/gif"@ =~= "image/"@ + "gif"@);
    assert("image/webp"@ =~= "image/"@ + "webp"@);
    assert("image/bmp"@ =~= "image/"@ + "bmp"@);
}

/// The content type of a file id depends only on what follows its last
/// `.`: an id made of any prefix, a `.` and a `.`-free extension is served
/// by that extension, lower-cased; an id without `.` is served as JPEG.
pub proof fn law_content_type_reads_the_last_extension(pre: Seq<char>, ext: Seq<char>, bare: Seq<char>)
    requires
        forall|k: int| 0 <= k < ext.len() ==> ext[k] != '.',
        forall|k: int| 0 <= k < bare.len() ==> bare[k] != '.',
    ensures
        file_content_type(pre + seq!['.'] + ext) == content_type_for(lowercase_of(ext)),
        file_content_type(bare) == "image/jpeg"@,
{
    let id = pre + seq!['.'] + ext;
    assert(id[pre.len() as int] == '.');
    assert(id.contains('.'));
    lemma_last_segment_from(id, pre.len() + 1int);
    assert(id.subrange(pre.len() + 1int, id.len() as int) =~= ext);
    assert(!bare.contains('.'));
}

/// The MIME type for a lower-case file extension: `png`, `gif`, `webp` and
/// `bmp` have their own, anything else is served as JPEG.
pub fn content_type_for_extension(ext: &str) -> (content_type: &'static str)
    ensures
        content_type@ == content_type_for(ext@),
{
    if str_eq(ext, "png") {
        "image/png"
    } else if str_eq(ext, "gif") {
        "image/gif"
    } else if str_eq(ext, "webp") {
        "image/webp"
    } else if str_eq(ext, "bmp") {
        "image/bmp"
    } else {
        "image/jpeg"
    }
}

/// The extension of `file_id`: the part after its last `.`, or `None`
/// when it holds no `.`.
pub fn file_extension(file_id: &str) -> (ext: Option<&str>)
    ensures
        match extension_of(file_id@) {
            Some(e) => ext is Some && ext->0@ == e,
            None => ext is None,
        },
{
    let len = file_id.unicode_len();
    let mut k = len;
    while k > 0 && file_id.get_char(k - 1) != '.'
        invariant
            len == file_id@.len(),
            k <= len,
            forall|x: int| k <= x < len ==> file_id@[x] != '.',
        decreases k,
    {
        k = k - 1;
    }
    if k == 0 {
        assert(!file_id@.contains('.'));
        return None;
    }
    assert(file_id@[k - 1] == '.');
    proof {
        lemma_last_segment_from(file_id@, k as int);
    }
    Some(file_id.substring_char(k, len))
}

/// The MIME type of a stored file, chosen by its extension, lower-cased;
/// unknown extensions, and ids without one, are served as `image/jpeg`.
pub fn get_content_type(file_id: &str) -> (content_type: &'static str)
    ensures
        content_type@ == file_content_type(file_id@),
        !file_id@.contains('.') ==> content_type@ == "image/jpeg"@,
{
    match file_extension(file_id) {
        Some(ext) => {
            let lower = to_lowercase(ext);
            content_type_for_extension(lower.as_str())
        },
        None => "image/jpeg",
    }
}

/// Which rendition of an image a request asks for.
#[derive(Debug, Clone, Copy, PartialEq, Eq, Structural)]
pub enum ImageDownloadType {
    Thumbnail,
    Preview,
    Original,
    Crop,
}

/// The rendition recorded in an image access token.
#[derive(Debug, Clone, Copy, PartialEq, Eq, Structural)]
pub enum ImageTokenType {
    Thumbnail,
    Preview,
    Original,
    Crop,
}

/// A face box inside an image, in pixels.
#[derive(Debug, Clone, Copy, PartialEq, Eq, Structural)]
pub struct FaceBox {
    pub x: u32,
    pub y: u32,
    pub w: u32,
    pub h: u32,
}

/// The decrypted contents of an image access token.
pub struct ImageToken {
    pub file_id: String,
    pub token_type: ImageTokenType,
    pub bbox: Option<FaceBox>,
}

/// What the object store is asked for, and what the response carries.
pub struct DownloadPlan {
    /// The stored object.
    pub file_id: String,
    /// The processing instruction for the object store; `None` for the
    /// original bytes.
    pub process: Option<String>,
    /// The `Content-Type` header of the response.
    pub content_type: &'static str,
    /// The `Cache-Control` header of the response.
    pub cache_control: &'static str,
}

/// Width in pixels of a cropped face rendition.
pub const CROP_SIZE: u32 = 200;

/// The processing instruction that crops `bbox` and scales it to `size` wide, as WebP.
pub open spec fn crop_process_text(bbox: FaceBox, size: u32) -> Seq<char> {
    "image/crop,x_"@ + decimal(bbox.x as nat) + ",y_"@ + decimal(bbox.y as nat) + ",w_"@
        + decimal(bbox.w as nat) + ",h_"@ + decimal(bbox.h as nat) + "/resize,w_"@ + decimal(
        size as nat,
    ) + "/format,webp"@
}

/// The processing instruction for a rendition; `None` for the original.
pub open spec fn process_text(kind: ImageDownloadType, bbox: FaceBox) -> Option<Seq<char>> {
    match kind {
        ImageDownloadType::Thumbnail => Some("image/resize,w_300/format,webp"@),
        ImageDownloadType::Preview => Some("image/resize,w_1920/format,webp"@),
        ImageDownloadType::Original => None,
        ImageDownloadType::Crop => Some(crop_process_text(bbox, CROP_SIZE)),
    }
}

/// The error for a plan, if the request cannot be served.
pub open spec fn plan_error(token: Option<ImageToken>, kind: ImageDownloadType) -> Option<
    AppError,
> {
    match token {
        None => Some(AppError::BadRequest("无效的token")),
        Some(t) => if kind == ImageDownloadType::Crop && t.bbox.is_none() {
            Some(AppError::BadRequest("token不包含裁剪信息"))
        } else {
            None
        },
    }
}

impl ImageDownloadType {
    /// The rendition that a token asks for.
    pub fn from_token_type(t: ImageTokenType) -> (kind: ImageDownloadType)
        ensures
            t == ImageTokenType::Thumbnail ==> kind == ImageDownloadType::Thumbnail,
            t == ImageTokenType::Preview ==> kind == ImageDownloadType::Preview,
            t == ImageTokenType::Original ==> kind == ImageDownloadType::Original,
            t == ImageTokenType::Crop ==> kind == ImageDownloadType::Crop,
    {
        match t {
            ImageTokenType::Thumbnail => ImageDownloadType::Thumbnail,
            ImageTokenType::Preview => ImageDownloadType::Preview,
            ImageTokenType::Original => ImageDownloadType::Original,
            ImageTokenType::Crop => ImageDownloadType::Crop,
        }
    }
}

/// Serves the image controllers of the photo domain.
pub struct PhotoController;

impl PhotoController {
    /// The crop instruction for a face box, scaled to `size` pixels wide.
    pub fn crop_process(bbox: FaceBox, size: u32) -> (process: String)
        ensures
            process@ == crop_process_text(bbox, size),
    {
        proof {
            reveal_strlit("image/crop,x_");
            reveal_strlit(",y_");
            reveal_strlit(",w_");
            reveal_strlit(",h_");
            reveal_strlit("/resize,w_");
            reveal_strlit("/format,webp");
        }
        let mut out = String::from_str("image/crop,x_");
        push_decimal(&mut out, bbox.x as u64);
        out.append(",y_");
        push_decimal(&mut out, bbox.y as u64);
        out.append(",w_");
        push_decimal(&mut out, bbox.w as u64);
        out.append(",h_");
        push_decimal(&mut out, bbox.h as u64);
        out.append("/resize,w_");
        push_decimal(&mut out, size as u64);
        out.append("/format,webp");
        out
    }

    /// Plans the download of an image: `token` is the decrypted access token
    /// (`None` when it did not decrypt) and `kind` the rendition asked for.
    /// Thumbnails are 300 and previews 1920 pixels wide, crops 200; all three
    /// are WebP. The original is sent with the content type of its extension.
    pub fn image_download_plan(token: Option<ImageToken>, kind: ImageDownloadType) -> (plan:
        Result<DownloadPlan, AppError>)
        ensures
            plan_error(token, kind) is Some <==> plan is Err,
            plan matches Err(e) ==> plan_error(token, kind) == Some(e),
            plan matches Ok(p) ==> {
                let t = token->0;
                let bbox = if t.bbox is Some {
                    t.bbox->0
                } else {
                    FaceBox { x: 0, y: 0, w: 0, h: 0 }
                };
                &&& p.file_id@ == t.file_id@
                &&& p.cache_control@ == "public, max-age=604800"@
                &&& match process_text(kind, bbox) {
                    Some(text) => p.process is Some && p.process->0@ == text
                        && p.content_type@ == "image/webp"@,
                    None => p.process is None && p.content_type@ == file_content_type(
                        t.file_id@,
                    ),
                }
            },
    {
        let token = match token {
            None => {
                return Err(AppError::BadRequest("无效的token"));
            },
            Some(t) => t,
        };
        let ghost t = token;
        let cache_control = "public, max-age=604800";
        match kind {
            ImageDownloadType::Thumbnail => Ok(
                DownloadPlan {
                    file_id: token.file_id,
                    process: Some(String::from_str("image/resize,w_300/format,webp")),
                    content_type: "image/webp",
                    cache_control,
                },
            ),
            ImageDownloadType::Preview => Ok(
                DownloadPlan {
                    file_id: token.file_id,
                    process: Some(String::from_str("image/resize,w_1920/format,webp")),
                    content_type: "image/webp",
                    cache_control,
                },
            ),
            ImageDownloadType::Original => {
                let content_type = get_content_type(token.file_id.as_str());
                Ok(DownloadPlan { file_id: token.file_id, process: None, content_type, cache_control })
            },
            ImageDownloadType::Crop => {
                match token.bbox {
                    None => Err(AppError::BadRequest("token不包含裁剪信息")),
                    Some(bbox) => {
                        let process = Self::crop_process(bbox, CROP_SIZE);
                        Ok(
                            DownloadPlan {
                                file_id: token.file_id,
                                process: Some(process),
                                content_type: "image/webp",
                                cache_control,
                            },
                        )
                    },
                }
            },
        }
    }
}

} // verus!

//! What the HTTP handlers decide before they call a service: the
//! identifiers they read from the path, the defaults they fill in and the
//! requests they refuse.
use vstd::prelude::*;
use vstd::string::*;

use crate::errors::AppError;
use crate::ids::{parse_i64, parse_i64_spec, parse_ids, parse_path_id, parsed_ids};
use crate::image::PhotoController;

verus! {

/// Page size when a request names none.
pub const DEFAULT_PAGE_SIZE: u64 = 20;

/// The only user who may upload a photo with a chosen creation time.
pub const ADMIN_USER_ID: i64 = 1;

/// A path identifier: `Ok` of its value when it parses, else `BadRequest(message)`.
pub open spec fn path_id(text: Seq<char>, message: &'static str) -> Result<i64, AppError> {
    match parse_i64_spec(text) {
        Some(v) => Ok(v),
        None => Err(AppError::BadRequest(message)),
    }
}

/// Two path identifiers, read left to right; the first that fails decides the error.
pub open spec fn path_id_pair(
    first: Seq<char>,
    first_message: &'static str,
    second: Seq<char>,
    second_message: &'static str,
) -> Result<(i64, i64), AppError> {
    match path_id(first, first_message) {
        Err(e) => Err(e),
        Ok(a) => match path_id(second, second_message) {
            Err(e) => Err(e),
            Ok(b) => Ok((a, b)),
        },
    }
}

fn read_pair(
    first: &str,
    first_message: &'static str,
    second: &str,
    second_message: &'static str,
) -> (ids: Result<(i64, i64), AppError>)
    ensures
        ids == path_id_pair(first@, first_message, second@, second_message),
{
    let a = parse_path_id(first, first_message)?;
    let b = parse_path_id(second, second_message)?;
    Ok((a, b))
}

/// The file name and content type an upload is stored under.
pub struct UploadMeta {
    pub file_name: String,
    pub content_type: String,
}

/// `given` when present, else `fallback`.
pub open spec fn or_default(given: Option<&str>, fallback: Seq<char>) -> Seq<char> {
    match given {
        Some(s) => s@,
        None => fallback,
    }
}

fn text_or(given: Option<&str>, fallback: &'static str) -> (text: String)
    ensures
        text@ == or_default(given, fallback@),
{
    match given {
        Some(s) => String::from_str(s),
        None => String::from_str(fallback),
    }
}

impl PhotoController {
    /// The photo to delete, from the path.
    pub fn delete_photo_id(id: &str) -> (photo_id: Result<i64, AppError>)
        ensures
            photo_id == path_id(id@, "无效的照片ID"),
    {
        parse_path_id(id, "无效的照片ID")
    }

    /// The name and type of an uploaded file; `photo_entities.jpg` and
    /// `image/jpg` when the form field carries none.
    pub fn upload_meta(file_name: Option<&str>, content_type: Option<&str>) -> (meta: UploadMeta)
        ensures
            meta.file_name@ == or_default(file_name, "photo_entities.jpg"@),
            meta.content_type@ == or_default(content_type, "image/jpg"@),
    {
        UploadMeta {
            file_name: text_or(file_name, "photo_entities.jpg"),
            content_type: text_or(content_type, "image/jpg"),
        }
    }

    /// An upload with a chosen creation time: only the administrator may make
    /// one; the file defaults are `photo_entities.jpg` and `image/jpeg`.
    pub fn upload_with_created_at_meta(
        user_id: i64,
        file_name: Option<&str>,
        content_type: Option<&str>,
    ) -> (meta: Result<UploadMeta, AppError>)
        ensures
            user_id != ADMIN_USER_ID <==> meta is Err,
            meta matches Err(e) ==> e == AppError::BadRequest("只有管理员可以上传指定时间的照片"),
            meta matches Ok(m) ==> m.file_name@ == or_default(file_name, "photo_entities.jpg"@)
                && m.content_type@ == or_default(content_type, "image/jpeg"@),
    {
        if user_id != ADMIN_USER_ID {
            return Err(AppError::BadRequest("只有管理员可以上传指定时间的照片"));
        }
        Ok(
            UploadMeta {
                file_name: text_or(file_name, "photo_entities.jpg"),
                content_type: text_or(content_type, "image/jpeg"),
            },
        )
    }
}

impl PhotoController {
    /// The name and type of a photo upload; `photo.jpg` and `image/jpg`
    /// when the form field carries none.
    pub fn upload_param(file_name: Option<&str>, content_type: Option<&str>) -> (meta: UploadMeta)
        ensures
            meta.file_name@ == or_default(file_name, "photo.jpg"@),
            meta.content_type@ == or_default(content_type, "image/jpg"@),
    {
        UploadMeta {
            file_name: text_or(file_name, "photo.jpg"),
            content_type: text_or(content_type, "image/jpg"),
        }
    }
}

/// Handlers for media records.
pub struct MediaController;

/// The headers of an image response.
pub struct ImageHeaders {
    pub content_type: String,
    pub cache_control: &'static str,
}

impl MediaController {
    /// The name and type of a media upload; `media.jpg` and `image/jpg`
    /// when the form field carries none.
    pub fn upload_param(file_name: Option<&str>, content_type: Option<&str>) -> (meta: UploadMeta)
        ensures
            meta.file_name@ == or_default(file_name, "media.jpg"@),
            meta.content_type@ == or_default(content_type, "image/jpg"@),
    {
        UploadMeta {
            file_name: text_or(file_name, "media.jpg"),
            content_type: text_or(content_type, "image/jpg"),
        }
    }

    /// The headers of an image response: processed renditions are WebP, an
    /// original keeps the content type it was stored with; either may be
    /// cached publicly for a week.
    pub fn image_headers(original_content_type: Option<&str>) -> (headers: ImageHeaders)
        ensures
            headers.content_type@ == or_default(original_content_type, "image/webp"@),
            headers.cache_control@ == "public, max-age=604800"@,
    {
        ImageHeaders {
            content_type: text_or(original_content_type, "image/webp"),
            cache_control: "public, max-age=604800",
        }
    }
}

/// Handlers for people and faces.
pub struct FaceController;

/// A page of photos of one person.
pub struct PersonPhotoQuery {
    pub person_id: i64,
    pub cursor: Option<i64>,
    pub size: u64,
}

/// The page size asked for, or the default.
pub open spec fn size_or_default(size: Option<u64>) -> u64 {
    match size {
        Some(s) => s,
        None => DEFAULT_PAGE_SIZE,
    }
}

impl FaceController {
    /// The person named in the path.
    pub fn person_id(id: &str) -> (person_id: Result<i64, AppError>)
        ensures
            person_id == path_id(id@, "无效的ID"),
    {
        parse_path_id(id, "无效的ID")
    }

    /// The photo named in the path.
    pub fn photo_id(id: &str) -> (photo_id: Result<i64, AppError>)
        ensures
            photo_id == path_id(id@, "无效的照片ID"),
    {
        parse_path_id(id, "无效的照片ID")
    }

    /// The person and page of a person's photos: a cursor that does not
    /// parse is ignored, and the page size defaults to 20.
    pub fn person_photo_query(id: &str, cursor: Option<&str>, size: Option<u64>) -> (query:
        Result<PersonPhotoQuery, AppError>)
        ensures
            match path_id(id@, "无效的ID") {
                Err(e) => query == Err::<PersonPhotoQuery, AppError>(e),
                Ok(pid) => query matches Ok(q) && q.person_id == pid && q.size == size_or_default(
                    size,
                ) && q.cursor == match cursor {
                    Some(c) => parse_i64_spec(c@),
                    None => None,
                },
            },
    {
        let person_id = parse_path_id(id, "无效的ID")?;
        let cursor = match cursor {
            Some(c) => parse_i64(c),
            None => None,
        };
        let size = match size {
            Some(s) => s,
            None => DEFAULT_PAGE_SIZE,
        };
        Ok(PersonPhotoQuery { person_id, cursor, size })
    }

    /// The source and target person of a merge.
    pub fn merge_person_ids(source: &str, target: &str) -> (ids: Result<(i64, i64), AppError>)
        ensures
            ids == path_id_pair(source@, "无效的源人物ID", target@, "无效的目标人物ID"),
    {
        read_pair(source, "无效的源人物ID", target, "无效的目标人物ID")
    }

    /// The face feature and the person it is moved to.
    pub fn face_belonging_ids(feature_id: &str, person_id: &str) -> (ids: Result<
        (i64, i64),
        AppError,
    >)
        ensures
            ids == path_id_pair(feature_id@, "无效的特征ID", person_id@, "无效的人物ID"),
    {
        read_pair(feature_id, "无效的特征ID", person_id, "无效的人物ID")
    }
}

/// Handlers for photo collections.
pub struct CollectionController;

impl CollectionController {
    /// The collection named in the path.
    pub fn collection_id(id: &str) -> (collection_id: Result<i64, AppError>)
        ensures
            collection_id == path_id(id@, "无效的ID"),
    {
        parse_path_id(id, "无效的ID")
    }

    /// The collection and page size of a listing of its photos.
    pub fn photos_query(id: &str, size: Option<u64>) -> (query: Result<(i64, u64), AppError>)
        ensures
            match path_id(id@, "无效的ID") {
                Err(e) => query == Err::<(i64, u64), AppError>(e),
                Ok(cid) => query == Ok::<(i64, u64), AppError>((cid, size_or_default(size))),
            },
    {
        let collection_id = parse_path_id(id, "无效的ID")?;
        let size = match size {
            Some(s) => s,
            None => DEFAULT_PAGE_SIZE,
        };
        Ok((collection_id, size))
    }

    /// The collection and the photo of a single add or remove.
    pub fn collection_photo_ids(collection_id: &str, photo_id: &str) -> (ids: Result<
        (i64, i64),
        AppError,
    >)
        ensures
            ids == path_id_pair(collection_id@, "无效的收藏夹ID", photo_id@, "无效的照片ID"),
    {
        read_pair(collection_id, "无效的收藏夹ID", photo_id, "无效的照片ID")
    }

    /// The collection of a batch add or remove, and the photo identifiers of
    /// the body that parse; the others are dropped.
    pub fn batch_photo_ids(collection_id: &str, photo_ids: &Vec<String>) -> (ids: Result<
        (i64, Vec<i64>),
        AppError,
    >)
        ensures
            match path_id(collection_id@, "无效的收藏夹ID") {
                Err(e) => ids matches Err(x) && x == e,
                Ok(cid) => ids matches Ok(r) && r.0 == cid && r.1@ == parsed_ids(
                    photo_ids@.map_values(|t: String| t@),
                ),
            },
    {
        let cid = parse_path_id(collection_id, "无效的收藏夹ID")?;
        Ok((cid, parse_ids(photo_ids)))
    }

    /// The photo whose collections are listed.
    pub fn photo_id(id: &str) -> (photo_id: Result<i64, AppError>)
        ensures
            photo_id == path_id(id@, "无效的照片ID"),
    {
        parse_path_id(id, "无效的照片ID")
    }
}

/// Handlers for photo comments.
pub struct CommentController;

impl CommentController {
    /// The commented photo named in the path.
    pub fn photo_id(id: &str) -> (photo_id: Result<i64, AppError>)
        ensures
            photo_id == path_id(id@, "无效的照片ID"),
    {
        parse_path_id(id, "无效的照片ID")
    }

    /// The comment named in the path.
    pub fn comment_id(id: &str) -> (comment_id: Result<i64, AppError>)
        ensures
            comment_id == path_id(id@, "无效的评论ID"),
    {
        parse_path_id(id, "无效的评论ID")
    }

    /// The photo and page size of a comment listing.
    pub fn list_query(id: &str, limit: Option<u64>) -> (query: Result<(i64, u64), AppError>)
        ensures
            match path_id(id@, "无效的照片ID") {
                Err(e) => query == Err::<(i64, u64), AppError>(e),
                Ok(pid) => query == Ok::<(i64, u64), AppError>((pid, size_or_default(limit))),
            },
    {
        let photo_id = parse_path_id(id, "无效的照片ID")?;
        let limit = match limit {
            Some(s) => s,
            None => DEFAULT_PAGE_SIZE,
        };
        Ok((photo_id, limit))
    }
}

} // verus!

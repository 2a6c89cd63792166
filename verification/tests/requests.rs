use photo_media::controllers::{
    CollectionController, CommentController, FaceController, MediaController, ADMIN_USER_ID,
    DEFAULT_PAGE_SIZE,
};
use photo_media::errors::AppError;
use photo_media::ids::{parse_i64, parse_ids, parse_path_id};
use photo_media::image::PhotoController;

#[test]
fn parse_i64_accepts_what_std_accepts() {
    assert_eq!(parse_i64("0"), Some(0));
    assert_eq!(parse_i64("42"), Some(42));
    assert_eq!(parse_i64("+42"), Some(42));
    assert_eq!(parse_i64("-42"), Some(-42));
    assert_eq!(parse_i64("007"), Some(7));
    assert_eq!(parse_i64("9223372036854775807"), Some(i64::MAX));
    assert_eq!(parse_i64("-9223372036854775808"), Some(i64::MIN));
}

#[test]
fn parse_i64_refuses_what_std_refuses() {
    for text in ["", "+", "-", "1a", " 1", "1 ", "--1", "1.0", "9223372036854775808", "-9223372036854775809", "99999999999999999999999"] {
        assert_eq!(parse_i64(text), None, "{text}");
        assert_eq!(parse_i64(text), text.parse::<i64>().ok(), "{text}");
    }
}

#[test]
fn parse_i64_agrees_with_std_on_samples() {
    for text in ["123456789", "-1", "+0", "-0", "18446744073709551615", "12x", "٣"] {
        assert_eq!(parse_i64(text), text.parse::<i64>().ok(), "{text}");
    }
}

#[test]
fn path_ids_carry_their_own_message() {
    assert_eq!(parse_path_id("12", "bad"), Ok(12));
    assert_eq!(parse_path_id("x", "bad"), Err(AppError::BadRequest("bad")));
    assert_eq!(PhotoController::delete_photo_id("abc"), Err(AppError::BadRequest("无效的照片ID")));
    assert_eq!(FaceController::person_id("-"), Err(AppError::BadRequest("无效的ID")));
    assert_eq!(FaceController::photo_id("5"), Ok(5));
    assert_eq!(CollectionController::collection_id("q"), Err(AppError::BadRequest("无效的ID")));
    assert_eq!(CollectionController::photo_id("q"), Err(AppError::BadRequest("无效的照片ID")));
    assert_eq!(CommentController::photo_id("q"), Err(AppError::BadRequest("无效的照片ID")));
    assert_eq!(CommentController::comment_id("q"), Err(AppError::BadRequest("无效的评论ID")));
    assert_eq!(CommentController::comment_id("8"), Ok(8));
}

#[test]
fn id_pairs_report_the_first_bad_id() {
    assert_eq!(FaceController::merge_person_ids("1", "2"), Ok((1, 2)));
    assert_eq!(
        FaceController::merge_person_ids("x", "y"),
        Err(AppError::BadRequest("无效的源人物ID"))
    );
    assert_eq!(
        FaceController::merge_person_ids("1", "y"),
        Err(AppError::BadRequest("无效的目标人物ID"))
    );
    assert_eq!(
        FaceController::face_belonging_ids("a", "2"),
        Err(AppError::BadRequest("无效的特征ID"))
    );
    assert_eq!(
        FaceController::face_belonging_ids("1", "b"),
        Err(AppError::BadRequest("无效的人物ID"))
    );
    assert_eq!(
        CollectionController::collection_photo_ids("c", "1"),
        Err(AppError::BadRequest("无效的收藏夹ID"))
    );
    assert_eq!(
        CollectionController::collection_photo_ids("3", "p"),
        Err(AppError::BadRequest("无效的照片ID"))
    );
    assert_eq!(CollectionController::collection_photo_ids("3", "4"), Ok((3, 4)));
}

#[test]
fn page_sizes_default_to_twenty() {
    assert_eq!(DEFAULT_PAGE_SIZE, 20);
    assert_eq!(CollectionController::photos_query("3", None), Ok((3, 20)));
    assert_eq!(CollectionController::photos_query("3", Some(7)), Ok((3, 7)));
    assert_eq!(
        CollectionController::photos_query("z", Some(7)),
        Err(AppError::BadRequest("无效的ID"))
    );
    assert_eq!(CommentController::list_query("9", None), Ok((9, 20)));
    assert_eq!(CommentController::list_query("9", Some(1)), Ok((9, 1)));
}

#[test]
fn person_photo_query_ignores_a_bad_cursor() {
    let q = FaceController::person_photo_query("4", Some("oops"), None).unwrap();
    assert_eq!((q.person_id, q.cursor, q.size), (4, None, 20));
    let q = FaceController::person_photo_query("4", Some("99"), Some(3)).unwrap();
    assert_eq!((q.person_id, q.cursor, q.size), (4, Some(99), 3));
    assert!(matches!(
        FaceController::person_photo_query("x", None, None),
        Err(AppError::BadRequest("无效的ID"))
    ));
}

#[test]
fn batch_photo_ids_drop_what_does_not_parse() {
    let body = vec!["1".to_string(), "x".to_string(), "3".to_string()];
    assert_eq!(CollectionController::batch_photo_ids("5", &body), Ok((5, vec![1, 3])));
    assert_eq!(
        CollectionController::batch_photo_ids("five", &body),
        Err(AppError::BadRequest("无效的收藏夹ID"))
    );
    assert_eq!(parse_ids(&body), vec![1, 3]);
    assert!(parse_ids(&Vec::new()).is_empty());
}

#[test]
fn upload_defaults() {
    let meta = PhotoController::upload_meta(None, None);
    assert_eq!(meta.file_name, "photo_entities.jpg");
    assert_eq!(meta.content_type, "image/jpg");
    let meta = PhotoController::upload_meta(Some("a.png"), Some("image/png"));
    assert_eq!(meta.file_name, "a.png");
    assert_eq!(meta.content_type, "image/png");
    let meta = PhotoController::upload_param(None, None);
    assert_eq!(meta.file_name, "photo.jpg");
    assert_eq!(meta.content_type, "image/jpg");
    let meta = MediaController::upload_param(None, Some("image/gif"));
    assert_eq!(meta.file_name, "media.jpg");
    assert_eq!(meta.content_type, "image/gif");
}

#[test]
fn only_the_admin_chooses_the_creation_time() {
    assert_eq!(ADMIN_USER_ID, 1);
    let refused = PhotoController::upload_with_created_at_meta(2, None, None);
    assert!(matches!(
        refused,
        Err(AppError::BadRequest("只有管理员可以上传指定时间的照片"))
    ));
    let meta = PhotoController::upload_with_created_at_meta(1, None, None).unwrap();
    assert_eq!(meta.file_name, "photo_entities.jpg");
    assert_eq!(meta.content_type, "image/jpeg");
}

#[test]
fn image_headers_default_to_webp() {
    let h = MediaController::image_headers(None);
    assert_eq!(h.content_type, "image/webp");
    assert_eq!(h.cache_control, "public, max-age=604800");
    let h = MediaController::image_headers(Some("image/png"));
    assert_eq!(h.content_type, "image/png");
}

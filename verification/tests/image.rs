use photo_media::errors::AppError;
use photo_media::image::{
    content_type_for_extension, file_extension, get_content_type, FaceBox, ImageDownloadType,
    ImageToken, ImageTokenType, PhotoController, CROP_SIZE,
};

#[test]
fn content_type_follows_the_extension() {
    assert_eq!(get_content_type("abc.png"), "image/png");
    assert_eq!(get_content_type("abc.gif"), "image/gif");
    assert_eq!(get_content_type("abc.webp"), "image/webp");
    assert_eq!(get_content_type("abc.bmp"), "image/bmp");
    assert_eq!(get_content_type("abc.jpg"), "image/jpeg");
    assert_eq!(get_content_type("abc.heic"), "image/jpeg");
}

#[test]
fn content_type_ignores_the_case_of_the_extension() {
    assert_eq!(get_content_type("a.PNG"), "image/png");
    assert_eq!(get_content_type("dir/b.WebP"), "image/webp");
}

#[test]
fn content_type_reads_only_the_last_extension() {
    assert_eq!(get_content_type("archive.png.gif"), "image/gif");
    assert_eq!(get_content_type("noext"), "image/jpeg");
    assert_eq!(get_content_type("trailing."), "image/jpeg");
    assert_eq!(get_content_type(""), "image/jpeg");
}

#[test]
fn an_id_without_extension_is_served_as_jpeg() {
    assert_eq!(get_content_type("png"), "image/jpeg");
    assert_eq!(get_content_type("GIF"), "image/jpeg");
    assert_eq!(get_content_type("photos/abc"), "image/jpeg");
}

#[test]
fn file_extension_is_after_the_last_dot() {
    assert_eq!(file_extension("a.b.c"), Some("c"));
    assert_eq!(file_extension("abc"), None);
    assert_eq!(file_extension("abc."), Some(""));
    assert_eq!(file_extension(".png"), Some("png"));
    assert_eq!(content_type_for_extension("bmp"), "image/bmp");
    assert_eq!(content_type_for_extension("BMP"), "image/jpeg");
}

#[test]
fn crop_process_renders_the_box() {
    let bbox = FaceBox { x: 10, y: 20, w: 300, h: 4000 };
    assert_eq!(
        PhotoController::crop_process(bbox, 200),
        "image/crop,x_10,y_20,w_300,h_4000/resize,w_200/format,webp"
    );
    let zero = FaceBox { x: 0, y: 0, w: 0, h: 0 };
    assert_eq!(
        PhotoController::crop_process(zero, 4294967295),
        "image/crop,x_0,y_0,w_0,h_0/resize,w_4294967295/format,webp"
    );
    assert_eq!(CROP_SIZE, 200);
}

#[test]
fn download_without_token_is_refused() {
    let plan = PhotoController::image_download_plan(None, ImageDownloadType::Original);
    assert!(matches!(plan, Err(AppError::BadRequest("无效的token"))));
}

#[test]
fn crop_without_box_is_refused() {
    let token = ImageToken {
        file_id: "f.jpg".to_string(),
        token_type: ImageTokenType::Crop,
        bbox: None,
    };
    let plan = PhotoController::image_download_plan(Some(token), ImageDownloadType::Crop);
    assert!(matches!(plan, Err(AppError::BadRequest("token不包含裁剪信息"))));
}

#[test]
fn download_plans_per_rendition() {
    let token = |bbox: Option<FaceBox>| ImageToken {
        file_id: "u/1.PNG".to_string(),
        token_type: ImageTokenType::Original,
        bbox,
    };

    let plan = PhotoController::image_download_plan(Some(token(None)), ImageDownloadType::Thumbnail)
        .unwrap();
    assert_eq!(plan.file_id, "u/1.PNG");
    assert_eq!(plan.process.as_deref(), Some("image/resize,w_300/format,webp"));
    assert_eq!(plan.content_type, "image/webp");
    assert_eq!(plan.cache_control, "public, max-age=604800");

    let plan = PhotoController::image_download_plan(Some(token(None)), ImageDownloadType::Preview)
        .unwrap();
    assert_eq!(plan.process.as_deref(), Some("image/resize,w_1920/format,webp"));
    assert_eq!(plan.content_type, "image/webp");

    let plan = PhotoController::image_download_plan(Some(token(None)), ImageDownloadType::Original)
        .unwrap();
    assert_eq!(plan.process, None);
    assert_eq!(plan.content_type, "image/png");

    let bbox = FaceBox { x: 1, y: 2, w: 3, h: 4 };
    let plan = PhotoController::image_download_plan(Some(token(Some(bbox))), ImageDownloadType::Crop)
        .unwrap();
    assert_eq!(
        plan.process.as_deref(),
        Some("image/crop,x_1,y_2,w_3,h_4/resize,w_200/format,webp")
    );
    assert_eq!(plan.content_type, "image/webp");
}

#[test]
fn token_type_maps_to_rendition() {
    assert_eq!(
        ImageDownloadType::from_token_type(ImageTokenType::Thumbnail),
        ImageDownloadType::Thumbnail
    );
    assert_eq!(
        ImageDownloadType::from_token_type(ImageTokenType::Preview),
        ImageDownloadType::Preview
    );
    assert_eq!(
        ImageDownloadType::from_token_type(ImageTokenType::Original),
        ImageDownloadType::Original
    );
    assert_eq!(ImageDownloadType::from_token_type(ImageTokenType::Crop), ImageDownloadType::Crop);
}

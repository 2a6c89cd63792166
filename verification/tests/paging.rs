use photo_media::paging::{
    CachedMediaLike, CursorFilter, CursorIdsSource, CursorPage, CursorQuery, MediaCursorParam,
    MediaId, MediaRepo, PageDirection, PhotoMapper, TimeIdCursor, MEDIA_CURSOR_CACHE_SIZE,
};

#[test]
fn cached_first_page_is_trimmed_to_requested_size() {
    let page = CursorPage::from_has_more(vec![MediaId(1), MediaId(2), MediaId(3)], false);

    let page = MediaRepo::resize_cached_first_page(page, 2);

    assert_eq!(page.records, vec![MediaId(1), MediaId(2)]);
    assert!(page.has_more);
}

#[test]
fn cached_first_page_preserves_source_has_more() {
    let page = CursorPage::from_has_more(vec![MediaId(1)], true);

    let page = MediaRepo::resize_cached_first_page(page, 32);

    assert_eq!(page.records, vec![MediaId(1)]);
    assert!(page.has_more);
}

#[test]
fn cached_first_page_that_fits_keeps_last_page_flag() {
    let page = CursorPage::from_has_more(vec![MediaId(4), MediaId(5)], false);
    let page = MediaRepo::resize_cached_first_page(page, 2);
    assert_eq!(page.records, vec![MediaId(4), MediaId(5)]);
    assert!(!page.has_more);
}

#[test]
fn oversize_page_drops_the_probe_record() {
    let page = CursorPage::from_oversize(vec![1i64, 2, 3], 2);
    assert_eq!(page.records, vec![1, 2]);
    assert!(page.has_more);

    let page = CursorPage::from_oversize(vec![1i64, 2], 2);
    assert_eq!(page.records, vec![1, 2]);
    assert!(!page.has_more);

    let page: CursorPage<i64> = CursorPage::empty();
    assert!(page.records.is_empty());
    assert!(!page.has_more);
}

#[test]
fn cursor_query_reads_one_extra_row_before_the_cursor() {
    let cursor = TimeIdCursor { time_at: 1_000, id: 42 };
    let query = PhotoMapper::build_cursor_query(Some(cursor), 20, PageDirection::Next, Some(5));
    assert_eq!(
        query,
        CursorQuery { descending: true, limit: 21, filter: CursorFilter::Before(cursor) }
    );

    let query = PhotoMapper::build_cursor_query(Some(cursor), 10, PageDirection::Prev, None);
    assert_eq!(
        query,
        CursorQuery { descending: false, limit: 11, filter: CursorFilter::After(cursor) }
    );
}

#[test]
fn cursor_query_without_cursor_uses_the_anchor() {
    let query = PhotoMapper::build_cursor_query(None, 5, PageDirection::Next, Some(77));
    assert_eq!(query.filter, CursorFilter::CreatedAtMost(77));
    let query = PhotoMapper::build_cursor_query(None, 5, PageDirection::Prev, Some(77));
    assert_eq!(query.filter, CursorFilter::CreatedAtLeast(77));
    let query = PhotoMapper::build_cursor_query(None, 0, PageDirection::Prev, None);
    assert_eq!(
        query,
        CursorQuery { descending: false, limit: 1, filter: CursorFilter::Unbounded }
    );
}

#[test]
fn first_media_page_comes_from_the_cache() {
    let req = MediaCursorParam {
        cursor: None,
        size: 30,
        direction: PageDirection::Next,
        anchor_time: None,
    };
    assert_eq!(
        MediaRepo::cursor_ids_source(req),
        CursorIdsSource::CachedFirstPage {
            direction: PageDirection::Next,
            load_size: MEDIA_CURSOR_CACHE_SIZE,
            size: 30,
        }
    );
    assert_eq!(MEDIA_CURSOR_CACHE_SIZE, 1024);
}

#[test]
fn later_media_pages_come_from_the_database() {
    let req = MediaCursorParam {
        cursor: Some(TimeIdCursor { time_at: 9, id: 3 }),
        size: 30,
        direction: PageDirection::Prev,
        anchor_time: None,
    };
    assert_eq!(MediaRepo::cursor_ids_source(req), CursorIdsSource::Query(req));
    let req = MediaCursorParam {
        cursor: None,
        size: 30,
        direction: PageDirection::Next,
        anchor_time: Some(100),
    };
    assert_eq!(MediaRepo::cursor_ids_source(req), CursorIdsSource::Query(req));
}

#[test]
fn liked_media_ids_keeps_liked_positions_only() {
    let cached = vec![
        Some(CachedMediaLike { media_id: MediaId(1), is_liked: true }),
        None,
        Some(CachedMediaLike { media_id: MediaId(3), is_liked: false }),
        Some(CachedMediaLike { media_id: MediaId(4), is_liked: true }),
    ];
    let ids = vec![MediaId(1), MediaId(2), MediaId(3), MediaId(4)];
    assert_eq!(MediaRepo::liked_media_ids(&cached, &ids), vec![MediaId(1), MediaId(4)]);
    assert!(MediaRepo::liked_media_ids(&Vec::new(), &ids).is_empty());
}

#[test]
fn md5_flags_follow_the_asked_order() {
    let asked = vec!["aa".to_string(), "bb".to_string(), "cc".to_string()];
    let stored = vec!["cc".to_string(), "aa".to_string()];
    assert_eq!(MediaRepo::md5_exists_flags(&asked, &stored), vec![true, false, true]);
    assert_eq!(MediaRepo::md5_exists_flags(&asked, &Vec::new()), vec![false, false, false]);
}

#[test]
fn like_statuses_mark_the_liked_misses() {
    let misses = vec![MediaId(1), MediaId(2), MediaId(3)];
    let liked = vec![MediaId(3), MediaId(9)];
    assert_eq!(
        MediaRepo::like_statuses(&misses, &liked),
        vec![
            CachedMediaLike { media_id: MediaId(1), is_liked: false },
            CachedMediaLike { media_id: MediaId(2), is_liked: false },
            CachedMediaLike { media_id: MediaId(3), is_liked: true },
        ]
    );
}

use std::collections::{HashMap, HashSet};

use photo_media::audit::{BehaviorAction, CollectionPhotoController, PhotoLikeController};
use photo_media::counters::{
    CollectionMapper, CollectionPhotoMapper, CommentService, TimelineStatMapper,
};
use photo_media::errors::AppError;
use photo_media::faces::PersonCounts;
use photo_media::paging::MediaRepo;
use photo_media::sql::{BehaviorMapper, FacePersonMapper, PersonMapper, StatsBind, StatsFilters};

const STATS_HEAD: &str =
    "SELECT date_trunc('day', created_at) AS bucket, COUNT(*) AS cnt FROM photo_user_behavior WHERE 1 = 1";
const STATS_TAIL: &str = " GROUP BY bucket ORDER BY bucket ASC";

#[test]
fn stats_sql_without_filters() {
    let filters = StatsFilters { action: None, target_type: None, start: None, end: None };
    let (sql, binds) = BehaviorMapper::stats_sql("day", &filters);
    assert_eq!(sql, format!("{STATS_HEAD}{STATS_TAIL}"));
    assert!(binds.is_empty());
}

#[test]
fn stats_sql_numbers_present_filters_in_order() {
    let filters = StatsFilters {
        action: Some("like".to_string()),
        target_type: None,
        start: Some(100),
        end: Some(200),
    };
    let (sql, binds) = BehaviorMapper::stats_sql("day", &filters);
    assert_eq!(
        sql,
        format!(
            "{STATS_HEAD} AND action = $1 AND created_at >= $2 AND created_at <= $3{STATS_TAIL}"
        )
    );
    assert_eq!(
        binds,
        vec![StatsBind::Text("like".to_string()), StatsBind::Time(100), StatsBind::Time(200)]
    );

    let all = StatsFilters {
        action: Some("collect".to_string()),
        target_type: Some("photo".to_string()),
        start: Some(1),
        end: Some(2),
    };
    let (sql, binds) = BehaviorMapper::stats_sql("month", &all);
    assert!(sql.starts_with("SELECT date_trunc('month', created_at)"));
    assert!(sql.contains(" AND target_type = $2 AND created_at >= $3 AND created_at <= $4 GROUP"));
    assert_eq!(
        binds,
        vec![
            StatsBind::Text("collect".to_string()),
            StatsBind::Text("photo".to_string()),
            StatsBind::Time(1),
            StatsBind::Time(2),
        ]
    );
}

#[test]
fn search_prefix_pattern_escapes_wildcards() {
    assert_eq!(PersonMapper::search_prefix_pattern("ab"), "ab%");
    assert_eq!(PersonMapper::search_prefix_pattern(""), "%");
    assert_eq!(PersonMapper::search_prefix_pattern("50%_a\\b"), "50\\%\\_a\\\\b%");
    assert_eq!(PersonMapper::search_prefix_pattern("张三"), "张三%");
}

#[test]
fn keyword_patterns_lower_case_the_initials() {
    let (initials, name) = FacePersonMapper::keyword_patterns("ZhS");
    assert_eq!(initials, "zhs%");
    assert_eq!(name, "ZhS%");
}

#[test]
fn removal_deltas_count_lost_links() {
    let deltas = CollectionPhotoMapper::removal_deltas(&vec![3, 5, 3, 3]);
    let expected: HashMap<i64, i64> = [(3, -3), (5, -1)].into_iter().collect();
    assert_eq!(deltas, expected);
    assert!(CollectionPhotoMapper::removal_deltas(&Vec::new()).is_empty());
}

#[test]
fn month_decrements_count_each_month_once() {
    // 2023-11-14, 1970-01-01, 2023-11-01, 2024-01-01 (UTC).
    let counts = TimelineStatMapper::month_decrements(&vec![
        1_700_000_000,
        0,
        1_698_796_800,
        1_704_067_200,
    ])
    .unwrap();
    assert_eq!(
        counts,
        vec![
            ("2023-11".to_string(), 2),
            ("1970-01".to_string(), 1),
            ("2024-01".to_string(), 1),
        ]
    );
}

#[test]
fn month_decrements_of_a_time_before_the_epoch() {
    // 1969-12-31 23:59:59 UTC.
    let counts = TimelineStatMapper::month_decrements(&vec![-1]).unwrap();
    assert_eq!(counts, vec![("1969-12".to_string(), 1)]);
    assert_eq!(TimelineStatMapper::month_decrements(&Vec::new()), Some(Vec::new()));
}

#[test]
fn month_decrements_refuse_a_time_without_month() {
    assert_eq!(TimelineStatMapper::month_decrements(&vec![0, i64::MAX]), None);
}

#[test]
fn like_and_unlike_outcomes() {
    assert_eq!(MediaRepo::like_outcome(true), Ok(()));
    assert_eq!(MediaRepo::like_outcome(false), Err(AppError::BadRequest("已经点赞过")));
    assert_eq!(MediaRepo::unlike_outcome(true), Ok(()));
    assert_eq!(MediaRepo::unlike_outcome(false), Err(AppError::BadRequest("还未点赞")));
}

#[test]
fn collection_update_and_delete_checks() {
    assert!(!CollectionMapper::info_update_needed(&None, &None));
    assert!(CollectionMapper::info_update_needed(&Some("n".to_string()), &None));
    assert!(CollectionMapper::info_update_needed(&None, &Some(String::new())));
    assert_eq!(
        CollectionMapper::check_info_updated(0),
        Err(AppError::BadRequest("修改收藏夹信息失败"))
    );
    assert_eq!(CollectionMapper::check_info_updated(1), Ok(()));
    assert_eq!(CollectionMapper::check_deleted(0), Err(AppError::BadRequest("删除收藏夹失败")));
    assert_eq!(CollectionMapper::check_deleted(2), Ok(()));
}

#[test]
fn comments_are_marked_liked_page_first_then_hot() {
    let liked: HashSet<i64> = [2, 9].into_iter().collect();
    let marked = CommentService::mark_liked(&vec![1, 2], &vec![9, 1], &liked);
    assert_eq!(marked, vec![(1, false), (2, true), (9, true), (1, false)]);
}

#[test]
fn features_are_grouped_by_person_in_order() {
    let features = vec![(10, Some(1)), (11, None), (12, Some(2)), (13, Some(1))];
    let groups = photo_media::sql::FacePersonMapper::group_features_by_person(&features);
    let expected: HashMap<i64, Vec<i64>> = [(1, vec![10, 13]), (2, vec![12])].into_iter().collect();
    assert_eq!(groups, expected);
}

#[test]
fn decrement_plan_clamps_counts_and_flags_lost_best_face() {
    let groups: HashMap<i64, Vec<i64>> = [(1, vec![10, 13]), (2, vec![12])].into_iter().collect();
    let persons = vec![
        PersonCounts { person_id: 2, total_photo_count: 0, max_score_feature_id: 99 },
        PersonCounts { person_id: 3, total_photo_count: 5, max_score_feature_id: 10 },
        PersonCounts { person_id: 1, total_photo_count: 7, max_score_feature_id: 13 },
    ];
    let plan = photo_media::sql::FacePersonMapper::decrement_plan(&groups, &persons);
    assert_eq!(plan.len(), 2);
    assert_eq!(plan[0].person_id, 2);
    assert_eq!(plan[0].removed_feature_ids, vec![12]);
    assert_eq!(plan[0].new_total_photo_count, 0);
    assert!(!plan[0].need_update_max_score);
    assert_eq!(plan[1].person_id, 1);
    assert_eq!(plan[1].removed_feature_ids, vec![10, 13]);
    assert_eq!(plan[1].new_total_photo_count, 5);
    assert!(plan[1].need_update_max_score);
}

#[test]
fn person_face_counts() {
    assert_eq!(PersonMapper::added_face_count(3, 0), None);
    assert_eq!(PersonMapper::added_face_count(3, 2), Some(5));
    assert_eq!(PersonMapper::removal_plan(5, &[1, 2], 2), (3, true));
    assert_eq!(PersonMapper::removal_plan(5, &[1, 2], 7), (5 - 2, false));
    assert_eq!(PersonMapper::removal_plan(0, &[], 7), (0, false));
}

#[test]
fn behaviour_records() {
    let ip = Some("10.0.0.1".to_string());
    let records =
        CollectionPhotoController::batch_records(7, BehaviorAction::Collect, 3, &vec![11, 12], &ip);
    assert_eq!(records.len(), 2);
    assert_eq!(records[0].user_id, 7);
    assert_eq!(records[0].action, BehaviorAction::Collect);
    assert_eq!(records[0].photo_id, Some(11));
    assert_eq!(records[1].photo_id, Some(12));
    assert_eq!(records[1].collection_id, Some(3));
    assert_eq!(records[1].ip.as_deref(), Some("10.0.0.1"));

    let r = CollectionPhotoController::remove_record(7, 3, 11, None);
    assert_eq!(r.action, BehaviorAction::Uncollect);
    assert_eq!((r.photo_id, r.collection_id, r.ip), (Some(11), Some(3), None));

    let r = PhotoLikeController::like_record(8, 4, true, None);
    assert_eq!((r.user_id, r.action, r.photo_id, r.collection_id), (8, BehaviorAction::Like, Some(4), None));
    let r = PhotoLikeController::like_record(8, 4, false, Some("::1".to_string()));
    assert_eq!(r.action, BehaviorAction::Unlike);
    assert_eq!(r.ip.as_deref(), Some("::1"));
}

#[test]
fn month_decrements_add_up_to_the_deleted_photos() {
    let times: Vec<i64> = vec![0, 86_400, 3_000_000, 1_700_000_000, 1_700_000_001, 0];
    let counts = TimelineStatMapper::month_decrements(&times).unwrap();
    let total: i64 = counts.iter().map(|(_, n)| n).sum();
    assert_eq!(total, times.len() as i64);
    let mut months: Vec<&String> = counts.iter().map(|(m, _)| m).collect();
    months.sort();
    months.dedup();
    assert_eq!(months.len(), counts.len());
    assert_eq!(counts[0], ("1970-01".to_string(), 3));
    assert_eq!(counts[1], ("1970-02".to_string(), 1));
}

#[test]
fn lost_best_features_are_replaced_by_the_top_remaining_one() {
    let groups: HashMap<i64, Vec<i64>> =
        [(1, vec![10]), (2, vec![12]), (3, vec![13])].into_iter().collect();
    let persons = vec![
        PersonCounts { person_id: 1, total_photo_count: 4, max_score_feature_id: 10 },
        PersonCounts { person_id: 2, total_photo_count: 4, max_score_feature_id: 99 },
        PersonCounts { person_id: 3, total_photo_count: 1, max_score_feature_id: 13 },
    ];
    let plan = photo_media::sql::FacePersonMapper::decrement_plan(&groups, &persons);
    assert_eq!(photo_media::sql::FacePersonMapper::persons_needing_new_best(&plan), vec![1, 3]);
    // Person 1 still has feature 11; person 3 has nothing left.
    let top: HashMap<i64, Option<i64>> = [(1, Some(11)), (3, None)].into_iter().collect();
    assert_eq!(
        photo_media::sql::FacePersonMapper::new_best_features(&plan, &top),
        vec![Some(11), None, Some(-1)]
    );
    let empty: HashMap<i64, Option<i64>> = HashMap::new();
    assert_eq!(
        photo_media::sql::FacePersonMapper::new_best_features(&plan, &empty),
        vec![Some(-1), None, Some(-1)]
    );
}

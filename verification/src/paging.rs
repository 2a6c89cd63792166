//! Cursor paging: pages of records with a "has more" flag, the keyset
//! query behind them, and the media repository's first-page cache.
use vstd::prelude::*;

use crate::text::str_eq;

verus! {

/// The identifier of a media record.
#[derive(Debug, Clone, Copy, PartialEq, Eq, Hash, Structural)]
pub struct MediaId(pub i64);

/// One page of records, and whether more follow it.
#[derive(Debug)]
pub struct CursorPage<R> {
    pub records: Vec<R>,
    pub has_more: bool,
}

/// The first `size` records when there are more than `size`, flagged as
/// having more; otherwise all of them, flagged as the last page.
pub open spec fn oversize_page<R>(records: Seq<R>, size: nat) -> (Seq<R>, bool) {
    if records.len() > size {
        (records.take(size as int), true)
    } else {
        (records, false)
    }
}

impl<R> CursorPage<R> {
    /// A page of `records` whose "has more" flag is given.
    pub fn from_has_more(records: Vec<R>, has_more: bool) -> (page: Self)
        ensures
            page.records@ == records@,
            page.has_more == has_more,
    {
        CursorPage { records, has_more }
    }

    /// A page built from a query that asked for `size + 1` records: the
    /// extra record, if it came, only tells that more follow.
    pub fn from_oversize(records: Vec<R>, size: u64) -> (page: Self)
        ensures
            (page.records@, page.has_more) == oversize_page(records@, size as nat),
            records@.len() > size ==> page.records@ == records@.take(size as int) && page.has_more,
            records@.len() <= size ==> page.records@ == records@ && !page.has_more,
    {
        let mut records = records;
        if records.len() as u64 > size {
            records.truncate(size as usize);
            CursorPage { records, has_more: true }
        } else {
            CursorPage { records, has_more: false }
        }
    }

    /// The empty last page.
    pub fn empty() -> (page: Self)
        ensures
            page.records@.len() == 0,
            !page.has_more,
    {
        CursorPage { records: Vec::new(), has_more: false }
    }
}

/// The direction in which a cursor pages through the timeline.
#[derive(Debug, Clone, Copy, PartialEq, Eq, Structural)]
pub enum PageDirection {
    /// Towards older records, newest first.
    Next,
    /// Towards newer records, oldest first.
    Prev,
}

/// A keyset position: a creation time (microseconds since the epoch) and an
/// identifier that breaks ties.
#[derive(Debug, Clone, Copy, PartialEq, Eq, Structural)]
pub struct TimeIdCursor {
    pub time_at: i64,
    pub id: i64,
}

/// The condition that restricts a timeline query.
#[derive(Debug, Clone, Copy, PartialEq, Eq, Structural)]
pub enum CursorFilter {
    /// No restriction: the first page.
    Unbounded,
    /// Records strictly before the cursor in `(created_at, id)` order.
    Before(TimeIdCursor),
    /// Records strictly after the cursor in `(created_at, id)` order.
    After(TimeIdCursor),
    /// Records created at or before the anchor time.
    CreatedAtMost(i64),
    /// Records created at or after the anchor time.
    CreatedAtLeast(i64),
}

/// The shape of a timeline query: its order, its row limit and its filter.
#[derive(Debug, Clone, Copy, PartialEq, Eq, Structural)]
pub struct CursorQuery {
    /// Order by `(created_at, id)` descending; ascending when false.
    pub descending: bool,
    pub limit: u64,
    pub filter: CursorFilter,
}

/// The timeline query for a page: `Next` walks newest first below the
/// cursor, `Prev` oldest first above it; without a cursor an anchor time
/// bounds the page from the same side; one row more than the page is read.
pub open spec fn cursor_query_spec(
    cursor: Option<TimeIdCursor>,
    size: u64,
    direction: PageDirection,
    anchor_time: Option<i64>,
) -> CursorQuery {
    let descending = direction == PageDirection::Next;
    let filter = match cursor {
        Some(c) => if descending {
            CursorFilter::Before(c)
        } else {
            CursorFilter::After(c)
        },
        None => match anchor_time {
            Some(a) => if descending {
                CursorFilter::CreatedAtMost(a)
            } else {
                CursorFilter::CreatedAtLeast(a)
            },
            None => CursorFilter::Unbounded,
        },
    };
    CursorQuery { descending, limit: (size + 1) as u64, filter }
}

/// Every timeline query reads one row more than the page it serves (the
/// extra row only tells whether more follow), walks newest first exactly
/// when paging to older records, and is bounded by the cursor when there is
/// one, else by the anchor time, else not at all.
pub proof fn law_cursor_query_reads_one_extra_row(
    cursor: Option<TimeIdCursor>,
    size: u64,
    direction: PageDirection,
    anchor_time: Option<i64>,
)
    requires
        size < u64::MAX,
    ensures
        cursor_query_spec(cursor, size, direction, anchor_time).limit == size + 1,
        cursor_query_spec(cursor, size, direction, anchor_time).descending <==> direction
            == PageDirection::Next,
        cursor matches Some(c) ==> cursor_query_spec(cursor, size, direction, anchor_time).filter
            == if direction == PageDirection::Next {
            CursorFilter::Before(c)
        } else {
            CursorFilter::After(c)
        },
        cursor is None ==> (anchor_time matches Some(a) ==> cursor_query_spec(
            cursor,
            size,
            direction,
            anchor_time,
        ).filter == if direction == PageDirection::Next {
            CursorFilter::CreatedAtMost(a)
        } else {
            CursorFilter::CreatedAtLeast(a)
        }),
        cursor is None && anchor_time is None ==> cursor_query_spec(
            cursor,
            size,
            direction,
            anchor_time,
        ).filter == CursorFilter::Unbounded,
{
}

/// Queries over the photo table.
pub struct PhotoMapper;

impl PhotoMapper {
    /// The timeline query for a page of photo identifiers.
    pub fn build_cursor_query(
        cursor: Option<TimeIdCursor>,
        size: u64,
        direction: PageDirection,
        anchor_time: Option<i64>,
    ) -> (query: CursorQuery)
        requires
            size < u64::MAX,
        ensures
            query == cursor_query_spec(cursor, size, direction, anchor_time),
            query.limit == size + 1,
            query.descending <==> direction == PageDirection::Next,
    {
        let descending = match direction {
            PageDirection::Next => true,
            PageDirection::Prev => false,
        };
        let filter = match cursor {
            Some(c) => if descending {
                CursorFilter::Before(c)
            } else {
                CursorFilter::After(c)
            },
            None => match anchor_time {
                Some(a) => if descending {
                    CursorFilter::CreatedAtMost(a)
                } else {
                    CursorFilter::CreatedAtLeast(a)
                },
                None => CursorFilter::Unbounded,
            },
        };
        CursorQuery { descending, limit: size + 1, filter }
    }
}

/// A media timeline request.
#[derive(Debug, Clone, Copy, PartialEq, Eq, Structural)]
pub struct MediaCursorParam {
    pub cursor: Option<TimeIdCursor>,
    pub size: u64,
    pub direction: PageDirection,
    pub anchor_time: Option<i64>,
}

/// Where a page of media identifiers comes from.
#[derive(Debug, Clone, Copy, PartialEq, Eq, Structural)]
pub enum CursorIdsSource {
    /// The cached first page in this direction, loaded with `load_size`
    /// records and cut to `size`.
    CachedFirstPage { direction: PageDirection, load_size: u64, size: u64 },
    /// A database query with the request as it is.
    Query(MediaCursorParam),
}

/// The number of records the cached first page holds: the largest page the
/// API allows, so that one cache entry serves every page size.
pub const MEDIA_CURSOR_CACHE_SIZE: u64 = 1024;

/// A cached liked-status of one media record for one user.
#[derive(Debug, Clone, Copy, PartialEq, Eq, Structural)]
pub struct CachedMediaLike {
    pub media_id: MediaId,
    pub is_liked: bool,
}

/// The media identifiers whose cached status says "liked", position by position.
pub open spec fn liked_ids_spec(cached: Seq<Option<CachedMediaLike>>, media_ids: Seq<MediaId>) -> Seq<
    MediaId,
>
    decreases cached.len(),
{
    if cached.len() == 0 || media_ids.len() == 0 {
        Seq::empty()
    } else {
        let n = if cached.len() < media_ids.len() {
            cached.len()
        } else {
            media_ids.len()
        };
        let rest = liked_ids_spec(cached.take(n - 1), media_ids.take(n - 1));
        match cached[n - 1] {
            Some(c) => if c.is_liked {
                rest.push(media_ids[n - 1])
            } else {
                rest
            },
            None => rest,
        }
    }
}

/// The liked media are those requested media whose cached status at the
/// same position says "liked": each of them is one of the requested ones,
/// and each requested medium with such a status is among them.
pub proof fn law_liked_ids_follow_positions(cached: Seq<Option<CachedMediaLike>>, media_ids: Seq<MediaId>)
    ensures
        liked_ids_spec(cached, media_ids).len() <= media_ids.len(),
        forall|x: int|
            #![trigger liked_ids_spec(cached, media_ids)[x]]
            0 <= x < liked_ids_spec(cached, media_ids).len() ==> exists|k: int|
                0 <= k < cached.len() && k < media_ids.len() && #[trigger] media_ids[k]
                    == liked_ids_spec(cached, media_ids)[x] && cached[k] is Some
                    && cached[k]->0.is_liked,
        forall|k: int|
            0 <= k < cached.len() && k < media_ids.len() && #[trigger] cached[k] is Some
                && cached[k]->0.is_liked ==> liked_ids_spec(cached, media_ids).contains(
                media_ids[k],
            ),
    decreases cached.len(),
{
    if cached.len() > 0 && media_ids.len() > 0 {
        let n = if cached.len() < media_ids.len() {
            cached.len()
        } else {
            media_ids.len()
        };
        let c2 = cached.take(n - 1);
        let m2 = media_ids.take(n - 1);
        law_liked_ids_follow_positions(c2, m2);
        let r = liked_ids_spec(c2, m2);
        let out = liked_ids_spec(cached, media_ids);
        assert forall|x: int| #![trigger out[x]] 0 <= x < out.len() implies exists|k: int|
            0 <= k < cached.len() && k < media_ids.len() && #[trigger] media_ids[k] == out[x]
                && cached[k] is Some && cached[k]->0.is_liked by {
            if x < r.len() {
                assert(out[x] == r[x]);
                let k = choose|k: int|
                    0 <= k < c2.len() && k < m2.len() && #[trigger] m2[k] == r[x] && c2[k] is Some
                        && c2[k]->0.is_liked;
                assert(media_ids[k] == m2[k]);
                assert(cached[k] == c2[k]);
            } else {
                assert(media_ids[n - 1] == out[x]);
            }
        }
        assert forall|k: int|
            0 <= k < cached.len() && k < media_ids.len() && #[trigger] cached[k] is Some
                && cached[k]->0.is_liked implies out.contains(media_ids[k]) by {
            if k < n - 1 {
                assert(c2[k] == cached[k]);
                assert(m2[k] == media_ids[k]);
                assert(c2[k] is Some);
                assert(r.contains(m2[k]));
                let y = choose|y: int| 0 <= y < r.len() && r[y] == m2[k];
                assert(out[y] == r[y]);
            } else {
                assert(out[out.len() - 1] == media_ids[k]);
            }
        }
    }
}

/// Data access of the media domain.
pub struct MediaRepo;

impl MediaRepo {
    /// Cuts the cached first page to the requested size: a longer page keeps
    /// its first `size` records and is flagged as having more; a page that
    /// fits keeps its records and its flag.
    pub fn resize_cached_first_page(page: CursorPage<MediaId>, size: u64) -> (resized:
        CursorPage<MediaId>)
        ensures
            page.records@.len() > size ==> resized.records@ == page.records@.take(size as int)
                && resized.has_more,
            page.records@.len() <= size ==> resized.records@ == page.records@ && resized.has_more
                == page.has_more,
    {
        let mut page = page;
        if page.records.len() as u64 > size {
            page.records.truncate(size as usize);
            page.has_more = true;
        }
        page
    }

    /// Where a timeline page comes from: the first page (no cursor, no
    /// anchor) is served from the cache, every other from the database.
    pub fn cursor_ids_source(req: MediaCursorParam) -> (source: CursorIdsSource)
        ensures
            (req.cursor is None && req.anchor_time is None) ==> (source
                == (CursorIdsSource::CachedFirstPage {
                direction: req.direction,
                load_size: MEDIA_CURSOR_CACHE_SIZE,
                size: req.size,
            })),
            !(req.cursor is None && req.anchor_time is None) ==> (source
                == CursorIdsSource::Query(req)),
    {
        if req.cursor.is_none() && req.anchor_time.is_none() {
            CursorIdsSource::CachedFirstPage {
                direction: req.direction,
                load_size: MEDIA_CURSOR_CACHE_SIZE,
                size: req.size,
            }
        } else {
            CursorIdsSource::Query(req)
        }
    }

    /// The requested media that the user likes: `cached[k]` is the cached
    /// status of `media_ids[k]`, and a missing status counts as not liked.
    pub fn liked_media_ids(cached: &Vec<Option<CachedMediaLike>>, media_ids: &[MediaId]) -> (liked:
        Vec<MediaId>)
        ensures
            liked@ == liked_ids_spec(cached@, media_ids@),
    {
        let n = if cached.len() < media_ids.len() {
            cached.len()
        } else {
            media_ids.len()
        };
        let mut liked: Vec<MediaId> = Vec::new();
        let mut k: usize = 0;
        while k < n
            invariant
                n <= cached@.len(),
                n <= media_ids@.len(),
                n == cached@.len() || n == media_ids@.len(),
                k <= n,
                liked@ == liked_ids_spec(cached@.take(k as int), media_ids@.take(k as int)),
            decreases n - k,
        {
            let ghost c2 = cached@.take(k + 1);
            let ghost m2 = media_ids@.take(k + 1);
            assert(c2.take(k as int) =~= cached@.take(k as int));
            assert(m2.take(k as int) =~= media_ids@.take(k as int));
            match cached[k] {
                Some(c) => {
                    if c.is_liked {
                        liked.push(media_ids[k]);
                    }
                },
                None => {},
            }
            k = k + 1;
        }
        proof {
            let cs = cached@;
            let ms = media_ids@;
            if n == cs.len() && n == ms.len() {
                assert(cs.take(n as int) =~= cs);
                assert(ms.take(n as int) =~= ms);
            } else if n == cs.len() {
                assert(cs.take(n as int) =~= cs);
                lemma_liked_ids_truncate(cs, ms);
            } else {
                assert(ms.take(n as int) =~= ms);
                lemma_liked_ids_truncate(cs, ms);
            }
        }
        liked
    }

    /// The statuses to cache for media whose liked-status was not cached:
    /// one per media, in order, liked when it is among `liked` (the user's
    /// likes that the database returned).
    pub fn like_statuses(miss_ids: &Vec<MediaId>, liked: &Vec<MediaId>) -> (statuses: Vec<
        CachedMediaLike,
    >)
        ensures
            statuses@.len() == miss_ids@.len(),
            forall|k: int|
                0 <= k < miss_ids@.len() ==> #[trigger] statuses@[k] == (CachedMediaLike {
                    media_id: miss_ids@[k],
                    is_liked: liked@.contains(miss_ids@[k]),
                }),
    {
        let mut statuses: Vec<CachedMediaLike> = Vec::new();
        let mut k: usize = 0;
        while k < miss_ids.len()
            invariant
                k <= miss_ids@.len(),
                statuses@.len() == k,
                forall|x: int|
                    0 <= x < k ==> #[trigger] statuses@[x] == (CachedMediaLike {
                        media_id: miss_ids@[x],
                        is_liked: liked@.contains(miss_ids@[x]),
                    }),
            decreases miss_ids.len() - k,
        {
            let id = miss_ids[k];
            let mut found = false;
            let mut q: usize = 0;
            while q < liked.len()
                invariant
                    q <= liked@.len(),
                    found <==> exists|y: int| 0 <= y < q && liked@[y] == id,
                decreases liked.len() - q,
            {
                if liked[q] == id {
                    found = true;
                }
                q = q + 1;
            }
            proof {
                if found {
                    let y = choose|y: int| 0 <= y < q && liked@[y] == id;
                    assert(liked@.contains(id));
                }
            }
            statuses.push(CachedMediaLike { media_id: id, is_liked: found });
            k = k + 1;
        }
        statuses
    }

    /// For each asked MD5, whether it is among those already stored.
    pub fn md5_exists_flags(md5s: &Vec<String>, existing: &Vec<String>) -> (flags: Vec<bool>)
        ensures
            flags@.len() == md5s@.len(),
            forall|k: int|
                0 <= k < md5s@.len() ==> #[trigger] flags@[k] == existing@.map_values(
                    |s: String| s@,
                ).contains(md5s@[k]@),
    {
        let ghost stored = existing@.map_values(|s: String| s@);
        let mut flags: Vec<bool> = Vec::new();
        let mut k: usize = 0;
        while k < md5s.len()
            invariant
                k <= md5s@.len(),
                flags@.len() == k,
                stored == existing@.map_values(|s: String| s@),
                forall|x: int|
                    0 <= x < k ==> #[trigger] flags@[x] == stored.contains(md5s@[x]@),
            decreases md5s.len() - k,
        {
            let mut found = false;
            let mut q: usize = 0;
            while q < existing.len()
                invariant
                    q <= existing@.len(),
                    k < md5s@.len(),
                    stored == existing@.map_values(|s: String| s@),
                    found <==> exists|y: int| 0 <= y < q && stored[y] == md5s@[k as int]@,
                decreases existing.len() - q,
            {
                assert(stored[q as int] == existing@[q as int]@);
                if str_eq(existing[q].as_str(), md5s[k].as_str()) {
                    found = true;
                }
                q = q + 1;
            }
            proof {
                if found {
                    let y = choose|y: int| 0 <= y < q && stored[y] == md5s@[k as int]@;
                    assert(stored.contains(md5s@[k as int]@));
                } else {
                    assert(!stored.contains(md5s@[k as int]@));
                }
            }
            flags.push(found);
            k = k + 1;
        }
        flags
    }
}

proof fn lemma_liked_ids_truncate(cached: Seq<Option<CachedMediaLike>>, media_ids: Seq<MediaId>)
    ensures
        liked_ids_spec(cached, media_ids) == liked_ids_spec(
            cached.take(
                if cached.len() < media_ids.len() {
                    cached.len() as int
                } else {
                    media_ids.len() as int
                },
            ),
            media_ids.take(
                if cached.len() < media_ids.len() {
                    cached.len() as int
                } else {
                    media_ids.len() as int
                },
            ),
        ),
{
    let n = if cached.len() < media_ids.len() {
        cached.len() as int
    } else {
        media_ids.len() as int
    };
    let c = cached.take(n);
    let m = media_ids.take(n);
    if n > 0 {
        assert(c.take(n - 1) =~= cached.take(n - 1));
        assert(m.take(n - 1) =~= media_ids.take(n - 1));
    }
}

} // verus!

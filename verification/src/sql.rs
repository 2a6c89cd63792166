//! SQL text that the mappers send: the behaviour statistics query with its
//! numbered placeholders, and the prefix patterns of person searches.
use vstd::prelude::*;
use vstd::string::*;

use crate::text::{decimal, lowercase_of, push_decimal, to_lowercase};

verus! {

/// The optional filters of a behaviour statistics query. Each filter that
/// is present adds a condition with the next numbered placeholder, in this
/// order, and its value is bound to that placeholder.
#[derive(Debug)]
pub struct StatsFilters {
    /// The action name, as stored.
    pub action: Option<String>,
    /// The target type name, as stored.
    pub target_type: Option<String>,
    /// The earliest creation time counted (Unix seconds, UTC).
    pub start: Option<i64>,
    /// The latest creation time counted (Unix seconds, UTC).
    pub end: Option<i64>,
}

/// A value bound to a placeholder of a statistics query.
#[derive(Debug, PartialEq, Eq)]
pub enum StatsBind {
    /// A text column value.
    Text(String),
    /// A creation time (Unix seconds, UTC).
    Time(i64),
}

/// A bound value, with text by its characters.
pub enum StatsBindView {
    Text(Seq<char>),
    Time(i64),
}

impl View for StatsBind {
    type V = StatsBindView;

    open spec fn view(&self) -> StatsBindView {
        match self {
            StatsBind::Text(s) => StatsBindView::Text(s@),
            StatsBind::Time(t) => StatsBindView::Time(*t),
        }
    }
}

/// The SQL so far and the number of bind parameters it holds, after the
/// clause `clause` with the next placeholder has been added when `present`.
pub open spec fn add_filter(acc: (Seq<char>, nat), present: bool, clause: Seq<char>) -> (
    Seq<char>,
    nat,
) {
    if present {
        (acc.0 + clause + decimal(acc.1 + 1), acc.1 + 1)
    } else {
        acc
    }
}

/// The statistics query: behaviour counts per `trunc` time bucket, filtered
/// by action, target type and a closed time range where given, bucket
/// ascending; and the number of bind parameters.
pub open spec fn stats_sql_spec(trunc: Seq<char>, f: StatsFilters) -> (Seq<char>, nat) {
    let head = "SELECT date_trunc('"@ + trunc
        + "', created_at) AS bucket, COUNT(*) AS cnt FROM photo_user_behavior WHERE 1 = 1"@;
    let a = add_filter((head, 0), f.action is Some, " AND action = $"@);
    let b = add_filter(a, f.target_type is Some, " AND target_type = $"@);
    let c = add_filter(b, f.start is Some, " AND created_at >= $"@);
    let d = add_filter(c, f.end is Some, " AND created_at <= $"@);
    (d.0 + " GROUP BY bucket ORDER BY bucket ASC"@, d.1)
}

/// The bound value of a text filter, if present.
pub open spec fn text_bind(v: Option<String>) -> Seq<StatsBindView> {
    match v {
        Some(s) => seq![StatsBindView::Text(s@)],
        None => Seq::empty(),
    }
}

/// The bound value of a time filter, if present.
pub open spec fn time_bind(v: Option<i64>) -> Seq<StatsBindView> {
    match v {
        Some(t) => seq![StatsBindView::Time(t)],
        None => Seq::empty(),
    }
}

/// The values bound to `$1`, `$2`, ... of the statistics query, in order.
pub open spec fn stats_binds_spec(f: StatsFilters) -> Seq<StatsBindView> {
    text_bind(f.action) + text_bind(f.target_type) + time_bind(f.start) + time_bind(f.end)
}

/// 1 for a present filter, 0 for an absent one.
pub open spec fn flag(present: bool) -> int {
    if present {
        1
    } else {
        0
    }
}

/// `piece` stands in `text` from position `i` on.
pub open spec fn piece_at(text: Seq<char>, i: int, piece: Seq<char>) -> bool {
    0 <= i && i + piece.len() <= text.len() && text.subrange(i, i + piece.len()) == piece
}

/// `piece` stands somewhere in `text`.
pub open spec fn occurs_in(text: Seq<char>, piece: Seq<char>) -> bool {
    exists|i: int| #[trigger] piece_at(text, i, piece)
}

proof fn lemma_piece_kept(x: Seq<char>, y: Seq<char>, i: int, piece: Seq<char>)
    requires
        piece_at(x, i, piece),
    ensures
        piece_at(x + y, i, piece),
{
    assert((x + y).subrange(i, i + piece.len()) =~= x.subrange(i, i + piece.len()));
}

proof fn lemma_piece_added(x: Seq<char>, piece: Seq<char>)
    ensures
        piece_at(x + piece, x.len() as int, piece),
{
    assert((x + piece).subrange(x.len() as int, (x.len() + piece.len()) as int) =~= piece);
}

proof fn lemma_filter_kept(acc: (Seq<char>, nat), present: bool, clause: Seq<char>, i: int, piece: Seq<char>)
    requires
        piece_at(acc.0, i, piece),
    ensures
        piece_at(add_filter(acc, present, clause).0, i, piece),
{
    if present {
        lemma_piece_kept(acc.0, clause + decimal(acc.1 + 1), i, piece);
        assert(acc.0 + clause + decimal(acc.1 + 1) =~= acc.0 + (clause + decimal(acc.1 + 1)));
    }
}

proof fn lemma_filter_added(acc: (Seq<char>, nat), clause: Seq<char>)
    ensures
        piece_at(add_filter(acc, true, clause).0, acc.0.len() as int, clause + decimal(acc.1 + 1)),
{
    lemma_piece_added(acc.0, clause + decimal(acc.1 + 1));
    assert(acc.0 + clause + decimal(acc.1 + 1) =~= acc.0 + (clause + decimal(acc.1 + 1)));
}

/// Each filter of the statistics query has its own fixed condition: the
/// action is compared with `=`, the target type with `=`, the start with
/// `>=` and the end with `<=`, whatever other filters are present. The
/// placeholder of a filter is numbered by the present filters up to it, and
/// that placeholder is bound to the filter's own value; nothing else is
/// bound. The query opens with the bucketed count and closes with the
/// bucket order.
pub proof fn law_stats_filters_keep_their_conditions(trunc: Seq<char>, f: StatsFilters)
    ensures
        ({
            let sql = stats_sql_spec(trunc, f).0;
            let binds = stats_binds_spec(f);
            let ka: int = 1;
            let kt = flag(f.action is Some) + 1;
            let ks = flag(f.action is Some) + flag(f.target_type is Some) + 1;
            let ke = flag(f.action is Some) + flag(f.target_type is Some) + flag(f.start is Some) + 1;
            &&& binds.len() == ke - 1 + flag(f.end is Some)
            &&& stats_sql_spec(trunc, f).1 == binds.len()
            &&& (f.action matches Some(a) ==> occurs_in(
                sql,
                " AND action = $"@ + decimal(ka as nat),
            ) && binds[ka - 1] == StatsBindView::Text(a@))
            &&& (f.target_type matches Some(t) ==> occurs_in(
                sql,
                " AND target_type = $"@ + decimal(kt as nat),
            ) && binds[kt - 1] == StatsBindView::Text(t@))
            &&& (f.start matches Some(t) ==> occurs_in(
                sql,
                " AND created_at >= $"@ + decimal(ks as nat),
            ) && binds[ks - 1] == StatsBindView::Time(t))
            &&& (f.end matches Some(t) ==> occurs_in(
                sql,
                " AND created_at <= $"@ + decimal(ke as nat),
            ) && binds[ke - 1] == StatsBindView::Time(t))
            &&& piece_at(sql, 0, "SELECT date_trunc('"@ + trunc
                + "', created_at) AS bucket, COUNT(*) AS cnt FROM photo_user_behavior WHERE 1 = 1"@)
            &&& piece_at(
                sql,
                sql.len() - " GROUP BY bucket ORDER BY bucket ASC"@.len(),
                " GROUP BY bucket ORDER BY bucket ASC"@,
            )
        }),
{
    let head = "SELECT date_trunc('"@ + trunc
        + "', created_at) AS bucket, COUNT(*) AS cnt FROM photo_user_behavior WHERE 1 = 1"@;
    let tail = " GROUP BY bucket ORDER BY bucket ASC"@;
    let ca = " AND action = $"@;
    let ct = " AND target_type = $"@;
    let cs = " AND created_at >= $"@;
    let ce = " AND created_at <= $"@;
    let a0 = (head, 0nat);
    let a = add_filter(a0, f.action is Some, ca);
    let b = add_filter(a, f.target_type is Some, ct);
    let c = add_filter(b, f.start is Some, cs);
    let d = add_filter(c, f.end is Some, ce);
    let sql = d.0 + tail;
    assert(stats_sql_spec(trunc, f).0 == sql);
    // The opening.
    assert(piece_at(head, 0, head)) by {
        assert(head.subrange(0, head.len() as int) =~= head);
    }
    lemma_filter_kept(a0, f.action is Some, ca, 0, head);
    lemma_filter_kept(a, f.target_type is Some, ct, 0, head);
    lemma_filter_kept(b, f.start is Some, cs, 0, head);
    lemma_filter_kept(c, f.end is Some, ce, 0, head);
    lemma_piece_kept(d.0, tail, 0, head);
    // The closing.
    lemma_piece_added(d.0, tail);
    // The action.
    if f.action is Some {
        lemma_filter_added(a0, ca);
        let i = a0.0.len() as int;
        let p = ca + decimal(1);
        lemma_filter_kept(a, f.target_type is Some, ct, i, p);
        lemma_filter_kept(b, f.start is Some, cs, i, p);
        lemma_filter_kept(c, f.end is Some, ce, i, p);
        lemma_piece_kept(d.0, tail, i, p);
        assert(piece_at(sql, i, p));
    }
    // The target type.
    if f.target_type is Some {
        lemma_filter_added(a, ct);
        let i = a.0.len() as int;
        let p = ct + decimal(a.1 + 1);
        lemma_filter_kept(b, f.start is Some, cs, i, p);
        lemma_filter_kept(c, f.end is Some, ce, i, p);
        lemma_piece_kept(d.0, tail, i, p);
        assert(piece_at(sql, i, p));
    }
    // The start.
    if f.start is Some {
        lemma_filter_added(b, cs);
        let i = b.0.len() as int;
        let p = cs + decimal(b.1 + 1);
        lemma_filter_kept(c, f.end is Some, ce, i, p);
        lemma_piece_kept(d.0, tail, i, p);
        assert(piece_at(sql, i, p));
    }
    // The end.
    if f.end is Some {
        lemma_filter_added(c, ce);
        let i = c.0.len() as int;
        let p = ce + decimal(c.1 + 1);
        lemma_piece_kept(d.0, tail, i, p);
        assert(piece_at(sql, i, p));
    }
    // The bound values.
    let ta = text_bind(f.action);
    let tt = text_bind(f.target_type);
    let ts = time_bind(f.start);
    let te = time_bind(f.end);
    let binds = stats_binds_spec(f);
    assert(binds == ta + tt + ts + te);
    assert(ta.len() == flag(f.action is Some));
    assert(tt.len() == flag(f.target_type is Some));
    assert(ts.len() == flag(f.start is Some));
    assert(te.len() == flag(f.end is Some));
    if f.action is Some {
        assert(binds[0] == ta[0]);
    }
    if f.target_type is Some {
        assert(binds[ta.len() as int] == tt[0]);
    }
    if f.start is Some {
        assert(binds[(ta.len() + tt.len()) as int] == ts[0]);
    }
    if f.end is Some {
        assert(binds[(ta.len() + tt.len() + ts.len()) as int] == te[0]);
    }
}

fn push_filter(sql: &mut String, binds: &mut u64, present: bool, clause: &str)
    requires
        *old(binds) < 4,
    ensures
        (final(sql)@, *final(binds) as nat) == add_filter(
            (old(sql)@, *old(binds) as nat),
            present,
            clause@,
        ),
        *final(binds) <= *old(binds) + 1,
{
    if present {
        sql.append(clause);
        push_decimal(sql, *binds + 1);
        *binds = *binds + 1;
    }
}

fn push_text_bind(values: &mut Vec<StatsBind>, v: &Option<String>)
    ensures
        final(values)@.map_values(|b: StatsBind| b@) == old(values)@.map_values(
            |b: StatsBind| b@,
        ) + text_bind(*v),
{
    let ghost before = values@;
    match v {
        Some(s) => {
            values.push(StatsBind::Text(s.clone()));
            assert(values@.map_values(|b: StatsBind| b@) =~= before.map_values(
                |b: StatsBind| b@,
            ) + text_bind(*v));
        },
        None => {
            assert(values@.map_values(|b: StatsBind| b@) =~= before.map_values(
                |b: StatsBind| b@,
            ) + text_bind(*v));
        },
    }
}

fn push_time_bind(values: &mut Vec<StatsBind>, v: Option<i64>)
    ensures
        final(values)@.map_values(|b: StatsBind| b@) == old(values)@.map_values(
            |b: StatsBind| b@,
        ) + time_bind(v),
{
    let ghost before = values@;
    match v {
        Some(t) => {
            values.push(StatsBind::Time(t));
            assert(values@.map_values(|b: StatsBind| b@) =~= before.map_values(
                |b: StatsBind| b@,
            ) + time_bind(v));
        },
        None => {
            assert(values@.map_values(|b: StatsBind| b@) =~= before.map_values(
                |b: StatsBind| b@,
            ) + time_bind(v));
        },
    }
}

/// Queries over the behaviour audit table.
pub struct BehaviorMapper;

impl BehaviorMapper {
    /// The statistics query text and the values bound to its placeholders,
    /// `$1` first.
    pub fn stats_sql(trunc: &str, filters: &StatsFilters) -> (sql: (String, Vec<StatsBind>))
        ensures
            (sql.0@, sql.1@.len()) == stats_sql_spec(trunc@, *filters),
            sql.1@.map_values(|b: StatsBind| b@) == stats_binds_spec(*filters),
    {
        let mut sql = String::from_str("SELECT date_trunc('");
        sql.append(trunc);
        sql.append(
            "', created_at) AS bucket, COUNT(*) AS cnt FROM photo_user_behavior WHERE 1 = 1",
        );
        let mut count: u64 = 0;
        push_filter(&mut sql, &mut count, filters.action.is_some(), " AND action = $");
        push_filter(&mut sql, &mut count, filters.target_type.is_some(), " AND target_type = $");
        push_filter(&mut sql, &mut count, filters.start.is_some(), " AND created_at >= $");
        push_filter(&mut sql, &mut count, filters.end.is_some(), " AND created_at <= $");
        sql.append(" GROUP BY bucket ORDER BY bucket ASC");
        let mut values: Vec<StatsBind> = Vec::new();
        assert(values@.map_values(|b: StatsBind| b@) =~= Seq::<StatsBindView>::empty());
        push_text_bind(&mut values, &filters.action);
        push_text_bind(&mut values, &filters.target_type);
        push_time_bind(&mut values, filters.start);
        push_time_bind(&mut values, filters.end);
        assert(Seq::<StatsBindView>::empty() + text_bind(filters.action) + text_bind(
            filters.target_type,
        ) + time_bind(filters.start) + time_bind(filters.end) =~= stats_binds_spec(*filters));
        assert(values@.len() == values@.map_values(|b: StatsBind| b@).len());
        (sql, values)
    }
}

/// A character as it stands in a `LIKE` pattern that matches it literally.
pub open spec fn like_escaped_char(c: char) -> Seq<char> {
    if c == '\\' {
        seq!['\\', '\\']
    } else if c == '%' {
        seq!['\\', '%']
    } else if c == '_' {
        seq!['\\', '_']
    } else {
        seq![c]
    }
}

/// `s` with `\`, `%` and `_` escaped by a backslash.
pub open spec fn like_escaped(s: Seq<char>) -> Seq<char>
    decreases s.len(),
{
    if s.len() == 0 {
        Seq::empty()
    } else {
        like_escaped(s.drop_last()) + like_escaped_char(s.last())
    }
}

/// Escaping works character by character, at every position alike: the
/// escape of a concatenation is the concatenation of the escapes, a
/// backslash, `%` or `_` becomes itself behind a backslash, and every other
/// character stays as it is.
pub proof fn law_like_escape_is_per_character(s1: Seq<char>, s2: Seq<char>, c: char)
    ensures
        like_escaped(s1 + s2) == like_escaped(s1) + like_escaped(s2),
        like_escaped(seq![c]) == if c == '\\' || c == '%' || c == '_' {
            seq!['\\', c]
        } else {
            seq![c]
        },
        like_escaped(Seq::<char>::empty()) == Seq::<char>::empty(),
    decreases s2.len(),
{
    assert(seq![c].drop_last() =~= Seq::<char>::empty());
    assert(like_escaped(Seq::<char>::empty()) == Seq::<char>::empty());
    assert(like_escaped(seq![c]) =~= Seq::<char>::empty() + like_escaped_char(c));
    assert(like_escaped(seq![c]) =~= like_escaped_char(c));
    if s2.len() == 0 {
        assert(s1 + s2 =~= s1);
        assert(like_escaped(s1) + like_escaped(s2) =~= like_escaped(s1));
    } else {
        law_like_escape_is_per_character(s1, s2.drop_last(), c);
        assert((s1 + s2).drop_last() =~= s1 + s2.drop_last());
        assert((s1 + s2).last() == s2.last());
        assert(like_escaped(s1 + s2) =~= like_escaped(s1) + like_escaped(s2));
    }
}

/// A keyword's pattern matches names that start with the keyword taken
/// literally: no wildcard of the keyword survives unescaped, whatever its
/// position, and the pattern is at most twice as long plus the final `%`.
pub proof fn law_like_escape_leaves_no_bare_wildcard(s: Seq<char>)
    ensures
        like_escaped(s).len() >= s.len(),
        like_escaped(s).len() <= 2 * s.len(),
        forall|k: int|
            0 <= k < s.len() && (s[k] == '%' || s[k] == '_' || s[k] == '\\') ==> like_escaped(
                s.take(k),
            ) + seq!['\\', s[k]] == #[trigger] like_escaped(s.take(k + 1)),
        forall|k: int|
            0 <= k < s.len() && !(s[k] == '%' || s[k] == '_' || s[k] == '\\') ==> like_escaped(
                s.take(k),
            ) + seq![s[k]] == #[trigger] like_escaped(s.take(k + 1)),
    decreases s.len(),
{
    if s.len() > 0 {
        law_like_escape_leaves_no_bare_wildcard(s.drop_last());
        assert forall|k: int|
            0 <= k < s.len() && (s[k] == '%' || s[k] == '_' || s[k] == '\\') implies like_escaped(
            s.take(k),
        ) + seq!['\\', s[k]] == #[trigger] like_escaped(s.take(k + 1)) by {
            assert(s.take(k + 1).drop_last() =~= s.take(k));
            assert(s.take(k + 1).last() == s[k]);
        }
        assert forall|k: int|
            0 <= k < s.len() && !(s[k] == '%' || s[k] == '_' || s[k] == '\\') implies like_escaped(
            s.take(k),
        ) + seq![s[k]] == #[trigger] like_escaped(s.take(k + 1)) by {
            assert(s.take(k + 1).drop_last() =~= s.take(k));
            assert(s.take(k + 1).last() == s[k]);
        }
    }
}

/// Queries over people.
pub struct PersonMapper;

impl PersonMapper {
    /// The pattern that matches every name starting with `keyword`, taken literally.
    pub fn search_prefix_pattern(keyword: &str) -> (pattern: String)
        ensures
            pattern@ == like_escaped(keyword@) + "%"@,
    {
        let len = keyword.unicode_len();
        let mut out = String::new();
        let mut k: usize = 0;
        while k < len
            invariant
                len == keyword@.len(),
                k <= len,
                out@ == like_escaped(keyword@.take(k as int)),
            decreases len - k,
        {
            let c = keyword.get_char(k);
            proof {
                reveal_strlit("\\\\");
                reveal_strlit("\\%");
                reveal_strlit("\\_");
            }
            assert(keyword@.take(k + 1).drop_last() =~= keyword@.take(k as int));
            assert(keyword@.take(k + 1).last() == c);
            if c == '\\' {
                out.append("\\\\");
            } else if c == '%' {
                out.append("\\%");
            } else if c == '_' {
                out.append("\\_");
            } else {
                out.append(keyword.substring_char(k, k + 1));
                assert(keyword@.subrange(k as int, k + 1) =~= seq![c]);
            }
            k = k + 1;
        }
        assert(keyword@.take(len as int) =~= keyword@);
        out.append("%");
        out
    }
}

/// Queries over people in the face catalogue.
pub struct FacePersonMapper;

impl FacePersonMapper {
    /// The two prefix patterns of a keyword search: the lower-cased keyword
    /// against name initials, the keyword as given against names.
    pub fn keyword_patterns(keyword: &str) -> (patterns: (String, String))
        ensures
            patterns.0@ == lowercase_of(keyword@) + "%"@,
            patterns.1@ == keyword@ + "%"@,
    {
        let mut initials = to_lowercase(keyword);
        initials.append("%");
        let mut name = String::from_str(keyword);
        name.append("%");
        (initials, name)
    }
}

} // verus!

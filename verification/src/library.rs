//! The song library: a list of songs, each a JSON object of tags (`title`, `artist`,
//! `album`, ...) and file names (`musicFilename`, `imageFilename`).
use vstd::prelude::*;
use crate::json::{str_field, text_field, Json, JsonObject, JsonValue};
use crate::rules::is_numeric_tag;
use crate::types::AutocompleteLists;
use crate::text::{
    decimal, last_path_segment, last_segment, normalize_newlines, normalized_newlines, u64_text,
    texts, trim, trimmed, compare_text, contains, has_infix, lemma_text_less_irreflexive, lemma_text_less_total,
    lemma_text_less_transitive, lowercase, parse_i32, parsed_i32, text_less, to_lowercase, Order,
};

verus! {

broadcast use vstd::seq_lib::group_seq_properties;

/// The model of one song.
pub type SongView = Map<Seq<char>, Json>;

/// The models of a list of songs.
pub open spec fn views(db: Seq<JsonObject>) -> Seq<SongView> {
    db.map_values(|s: JsonObject| s@)
}

// ---------------------------------------------------------------------------
// Search
// ---------------------------------------------------------------------------

/// The tag `k` of the song is a string whose lower-case form holds `q`.
pub open spec fn tag_holds(song: SongView, k: Seq<char>, q: Seq<char>) -> bool {
    match str_field(song, k) {
        Some(s) => has_infix(lowercase(s), q),
        None => false,
    }
}

/// A search query matches a song when, lower-cased, it occurs in the lower-cased title,
/// artist, album, genre, year or composer.
pub open spec fn search_matches(song: SongView, query: Seq<char>) -> bool {
    let q = lowercase(query);
    ||| tag_holds(song, "title"@, q)
    ||| tag_holds(song, "artist"@, q)
    ||| tag_holds(song, "album"@, q)
    ||| tag_holds(song, "genre"@, q)
    ||| tag_holds(song, "year"@, q)
    ||| tag_holds(song, "composer"@, q)
}

/// A search finds a song exactly when one of its title, artist, album, genre, year or composer
/// is a string whose lower-case form holds the lower-cased query.
pub proof fn lemma_search_finds(song: SongView, query: Seq<char>)
    ensures
        search_matches(song, query) <==> exists|k: Seq<char>|
            (k == "title"@ || k == "artist"@ || k == "album"@ || k == "genre"@ || k == "year"@ || k
                == "composer"@) && (#[trigger] str_field(song, k) matches Some(s) && has_infix(
                lowercase(s),
                lowercase(query),
            )),
{
}

/// A song is listed for a query when the query is empty or matches it.
pub open spec fn listed(song: SongView, query: Seq<char>) -> bool {
    query.len() == 0 || search_matches(song, query)
}

fn tag_holds_of(song: &JsonObject, k: &str, q: &str) -> (r: bool)
    ensures
        r == tag_holds(song@, k@, q@),
{
    match song.get_str(k) {
        Some(s) => {
            let l = to_lowercase(s.as_str());
            contains(l.as_str(), q)
        },
        None => false,
    }
}

/// Whether a search query matches a song (`match_search`).
pub fn match_search(item: &JsonObject, query: &str) -> (r: bool)
    ensures
        r == search_matches(item@, query@),
{
    let q = to_lowercase(query);
    tag_holds_of(item, "title", q.as_str()) || tag_holds_of(item, "artist", q.as_str())
        || tag_holds_of(item, "album", q.as_str()) || tag_holds_of(item, "genre", q.as_str())
        || tag_holds_of(item, "year", q.as_str()) || tag_holds_of(item, "composer", q.as_str())
}

/// Whether a song is listed for a query.
pub fn is_listed(item: &JsonObject, query: &str) -> (r: bool)
    ensures
        r == listed(item@, query@),
{
    query.is_empty() || match_search(item, query)
}

/// The songs listed for a query, in library order.
pub open spec fn listed_songs(db: Seq<SongView>, query: Seq<char>) -> Seq<SongView> {
    db.filter(|s: SongView| listed(s, query))
}

/// An empty query lists every song, in library order; another query lists, in library order,
/// exactly the songs it finds (see `lemma_search_finds`).
pub proof fn lemma_listed_songs(db: Seq<SongView>, query: Seq<char>)
    ensures
        query.len() == 0 ==> listed_songs(db, query) == db,
        query.len() > 0 ==> forall|j: int|
            0 <= j < listed_songs(db, query).len() ==> db.contains(#[trigger] listed_songs(db, query)[j])
                && search_matches(listed_songs(db, query)[j], query),
        query.len() > 0 ==> forall|k: int|
            0 <= k < db.len() && search_matches(#[trigger] db[k], query) ==> listed_songs(db, query).contains(
                db[k],
            ),
{
    let pred = |s: SongView| listed(s, query);
    let l = db.filter(pred);
    assert forall|j: int| 0 <= j < l.len() implies db.contains(#[trigger] l[j]) && pred(l[j]) by {
        db.lemma_filter_pred(pred, j);
        db.lemma_filter_contains_rev(pred, l[j]);
    }
    assert forall|k: int| 0 <= k < db.len() && pred(#[trigger] db[k]) implies l.contains(db[k]) by {
        db.lemma_filter_contains(pred, k);
    }
    if query.len() == 0 {
        lemma_filter_all(db, pred);
    }
}

proof fn lemma_filter_all(s: Seq<SongView>, pred: spec_fn(SongView) -> bool)
    requires
        forall|i: int| 0 <= i < s.len() ==> pred(#[trigger] s[i]),
    ensures
        s.filter(pred) == s,
    decreases s.len(),
{
    if s.len() > 0 {
        lemma_filter_all(s.drop_last(), pred);
        s.drop_last().lemma_filter_push(s.last(), pred);
        assert(s.drop_last().push(s.last()) =~= s);
    } else {
        assert(s.filter(pred) =~= s);
    }
}

/// How many songs a query lists (`get_library_count`).
pub fn get_library_count(search_query: &str, db: &Vec<JsonObject>) -> (r: usize)
    ensures
        r == listed_songs(views(db@), search_query@).len(),
{
    let ghost pred = |s: SongView| listed(s, search_query@);
    let mut n: usize = 0;
    let mut i: usize = 0;
    while i < db.len()
        invariant
            i <= db.len(),
            pred == (|s: SongView| listed(s, search_query@)),
            n == views(db@).take(i as int).filter(pred).len(),
            n <= i,
        decreases db.len() - i,
    {
        proof {
            views(db@).take(i as int).lemma_filter_push(db@[i as int]@, pred);
            assert(views(db@).take(i + 1) =~= views(db@).take(i as int).push(db@[i as int]@));
        }
        if is_listed(&db[i], search_query) {
            n = n + 1;
        }
        i = i + 1;
    }
    proof {
        assert(views(db@).take(db.len() as int) =~= views(db@));
    }
    n
}

/// Copies of the songs listed for a query, in library order.
pub fn listed_copies(search_query: &str, db: &Vec<JsonObject>) -> (r: Vec<JsonObject>)
    ensures
        views(r@) == listed_songs(views(db@), search_query@),
{
    let ghost pred = |s: SongView| listed(s, search_query@);
    let mut r: Vec<JsonObject> = Vec::new();
    let mut i: usize = 0;
    while i < db.len()
        invariant
            i <= db.len(),
            pred == (|s: SongView| listed(s, search_query@)),
            views(r@) == views(db@).take(i as int).filter(pred),
        decreases db.len() - i,
    {
        proof {
            views(db@).take(i as int).lemma_filter_push(db@[i as int]@, pred);
            assert(views(db@).take(i + 1) =~= views(db@).take(i as int).push(db@[i as int]@));
        }
        if is_listed(&db[i], search_query) {
            let c = db[i].copy();
            let ghost before = r@;
            r.push(c);
            proof {
                assert(views(r@) =~= views(before).push(c@));
            }
        }
        i = i + 1;
    }
    proof {
        assert(views(db@).take(db.len() as int) =~= views(db@));
    }
    r
}

// ---------------------------------------------------------------------------
// Sorting by a tag
// ---------------------------------------------------------------------------

/// The text by which songs are sorted on tag `f`: the tag's string, lower-cased.
pub open spec fn text_key(song: SongView, f: Seq<char>) -> Seq<char> {
    lowercase(text_field(song, f))
}

/// The number by which songs are sorted on a numeric tag: the lower-cased string read as an
/// `i32`, or 0 when it is not one.
pub open spec fn number_key(song: SongView, f: Seq<char>) -> int {
    match parsed_i32(text_key(song, f)) {
        Some(n) => n as int,
        None => 0,
    }
}

/// Whether song `a` comes strictly before song `b` when sorting on tag `f` (numerically for
/// track, disc, year and bpm, by text otherwise), in descending order when `desc`.
pub open spec fn sorts_before(f: Seq<char>, desc: bool, a: SongView, b: SongView) -> bool {
    if is_numeric_tag(f) {
        if desc {
            number_key(b, f) < number_key(a, f)
        } else {
            number_key(a, f) < number_key(b, f)
        }
    } else {
        if desc {
            text_less(text_key(b, f), text_key(a, f))
        } else {
            text_less(text_key(a, f), text_key(b, f))
        }
    }
}

/// Songs that the sort on tag `f` does not tell apart.
pub open spec fn same_rank(f: Seq<char>, a: SongView, b: SongView) -> bool {
    if is_numeric_tag(f) {
        number_key(a, f) == number_key(b, f)
    } else {
        text_key(a, f) == text_key(b, f)
    }
}

/// The songs of `s` that rank with `c`, in their order in `s`.
pub open spec fn rank_class(s: Seq<SongView>, f: Seq<char>, c: SongView) -> Seq<SongView> {
    s.filter(|y: SongView| same_rank(f, y, c))
}

/// No song of `s` comes strictly before an earlier one.
pub open spec fn in_order(s: Seq<SongView>, f: Seq<char>, desc: bool) -> bool {
    forall|i: int, j: int| 0 <= i < j < s.len() ==> !sorts_before(f, desc, #[trigger] s[j], #[trigger] s[i])
}

/// `out` is `input` sorted stably on tag `f` (`slice::sort_by`): in order, and the songs of
/// each rank in the order they had in `input`.
pub open spec fn stable_sort_of(
    out: Seq<SongView>,
    input: Seq<SongView>,
    f: Seq<char>,
    desc: bool,
) -> bool {
    &&& out.len() == input.len()
    &&& in_order(out, f, desc)
    &&& forall|c: SongView| #[trigger] rank_class(out, f, c) == rank_class(input, f, c)
}

/// A sort on a numeric tag (track, disc, year, bpm) leaves the songs in ascending order of
/// their numbers (the tag's lower-cased string read as an `i32`, 0 when it is not one), and in
/// descending order when `desc`; a sort on another tag does the same with the lower-cased
/// strings.
pub proof fn lemma_sorted_direction(out: Seq<SongView>, input: Seq<SongView>, f: Seq<char>, desc: bool)
    requires
        stable_sort_of(out, input, f, desc),
    ensures
        forall|i: int, j: int|
            0 <= i < j < out.len() ==> {
                let ka = lowercase(text_field(#[trigger] out[i], f));
                let kb = lowercase(text_field(#[trigger] out[j], f));
                let na = match parsed_i32(ka) {
                    Some(n) => n as int,
                    None => 0,
                };
                let nb = match parsed_i32(kb) {
                    Some(n) => n as int,
                    None => 0,
                };
                &&& is_numeric_tag(f) && !desc ==> na <= nb
                &&& is_numeric_tag(f) && desc ==> nb <= na
                &&& !is_numeric_tag(f) && !desc ==> !text_less(kb, ka)
                &&& !is_numeric_tag(f) && desc ==> !text_less(ka, kb)
            },
{
}

proof fn lemma_rank(f: Seq<char>, desc: bool, a: SongView, b: SongView)
    ensures
        (!sorts_before(f, desc, a, b) && !sorts_before(f, desc, b, a)) <==> same_rank(f, a, b),
        sorts_before(f, desc, a, b) ==> !sorts_before(f, desc, b, a),
        !sorts_before(f, desc, a, a),
{
    lemma_text_less_total(text_key(a, f), text_key(b, f));
    lemma_text_less_irreflexive(text_key(a, f));
    lemma_text_less_irreflexive(text_key(b, f));
}

proof fn lemma_before_then_not_after(
    f: Seq<char>,
    desc: bool,
    a: SongView,
    b: SongView,
    c: SongView,
)
    requires
        sorts_before(f, desc, a, b),
        !sorts_before(f, desc, c, b),
    ensures
        sorts_before(f, desc, a, c),
{
    let (ka, kb, kc) = (text_key(a, f), text_key(b, f), text_key(c, f));
    lemma_text_less_total(kb, kc);
    if !is_numeric_tag(f) {
        if desc {
            if kb != kc {
                lemma_text_less_transitive(kc, kb, ka);
            }
        } else {
            if kb != kc {
                lemma_text_less_transitive(ka, kb, kc);
            }
        }
    }
}

proof fn lemma_same_rank_before(f: Seq<char>, desc: bool, a: SongView, c: SongView, y: SongView)
    requires
        same_rank(f, a, c),
        sorts_before(f, desc, a, y),
    ensures
        !same_rank(f, y, c),
{
    lemma_text_less_irreflexive(text_key(a, f));
}

proof fn lemma_class_after_insert(
    v: Seq<SongView>,
    p: int,
    x: SongView,
    f: Seq<char>,
    desc: bool,
    c: SongView,
)
    requires
        0 <= p <= v.len(),
        forall|q: int| p <= q < v.len() ==> sorts_before(f, desc, x, #[trigger] v[q]),
    ensures
        rank_class(v.insert(p, x), f, c) == if same_rank(f, x, c) {
            rank_class(v, f, c).push(x)
        } else {
            rank_class(v, f, c)
        },
{
    let pred = |y: SongView| same_rank(f, y, c);
    let a = v.take(p);
    let b = v.skip(p);
    assert(v.insert(p, x) =~= a + seq![x] + b);
    assert(v =~= a + b);
    Seq::filter_distributes_over_add(a + seq![x], b, pred);
    Seq::filter_distributes_over_add(a, seq![x], pred);
    Seq::filter_distributes_over_add(a, b, pred);
    Seq::<SongView>::empty().lemma_filter_push(x, pred);
    assert(Seq::<SongView>::empty().push(x) =~= seq![x]);
    reveal(Seq::filter);
    assert(Seq::<SongView>::empty().filter(pred) =~= Seq::<SongView>::empty());
    if same_rank(f, x, c) {
        assert(b.filter(pred).len() == 0) by {
            if b.filter(pred).len() > 0 {
                let e = b.filter(pred)[0];
                b.lemma_filter_pred(pred, 0);
                assert(b.filter(pred).contains(e));
                b.lemma_filter_contains_rev(pred, e);
                let q = choose|q: int| 0 <= q < b.len() && b[q] == e;
                assert(b[q] == v[p + q]);
                lemma_same_rank_before(f, desc, x, c, e);
            }
        }
        assert(b.filter(pred) =~= Seq::<SongView>::empty());
        assert(rank_class(v.insert(p, x), f, c) =~= rank_class(v, f, c).push(x));
    } else {
        assert(rank_class(v.insert(p, x), f, c) =~= rank_class(v, f, c));
    }
}

/// The sort text of song `song` on tag `f`.
pub fn text_key_of(song: &JsonObject, f: &str) -> (r: String)
    ensures
        r@ == text_key(song@, f@),
{
    let t = song.text_or_empty(f);
    to_lowercase(t.as_str())
}

/// The sort number of song `song` on tag `f`.
pub fn number_key_of(song: &JsonObject, f: &str) -> (r: i32)
    ensures
        r as int == number_key(song@, f@),
{
    let t = text_key_of(song, f);
    match parse_i32(t.as_str()) {
        Some(n) => n,
        None => 0,
    }
}

/// Whether one song comes strictly before another when sorting on tag `f`.
pub fn sorts_before_of(f: &str, desc: bool, a: &JsonObject, b: &JsonObject) -> (r: bool)
    ensures
        r == sorts_before(f@, desc, a@, b@),
{
    if crate::text::same_text(f, "track") || crate::text::same_text(f, "disc")
        || crate::text::same_text(f, "year") || crate::text::same_text(f, "bpm") {
        let x = number_key_of(a, f);
        let y = number_key_of(b, f);
        if desc {
            y < x
        } else {
            x < y
        }
    } else {
        let x = text_key_of(a, f);
        let y = text_key_of(b, f);
        if desc {
            compare_text(y.as_str(), x.as_str()) == Order::Less
        } else {
            compare_text(x.as_str(), y.as_str()) == Order::Less
        }
    }
}

/// How often song `x` occurs in `s`.
pub open spec fn occurrences(s: Seq<SongView>, x: SongView) -> nat {
    s.filter(|y: SongView| y == x).len()
}

proof fn lemma_filter_within(s: Seq<SongView>, p: spec_fn(SongView) -> bool, q: spec_fn(SongView) -> bool)
    requires
        forall|y: SongView| #[trigger] q(y) ==> p(y),
    ensures
        s.filter(p).filter(q) == s.filter(q),
    decreases s.len(),
{
    if s.len() == 0 {
        assert(s.filter(p) =~= s);
        assert(s.filter(q) =~= s);
    } else {
        let t = s.drop_last();
        let x = s.last();
        lemma_filter_within(t, p, q);
        assert(t.push(x) =~= s);
        t.lemma_filter_push(x, p);
        t.lemma_filter_push(x, q);
        if p(x) {
            t.filter(p).lemma_filter_push(x, q);
        }
    }
}

/// Sorting keeps the songs: each occurs in the sorted list as often as in the input.
pub proof fn lemma_sort_keeps_songs(out: Seq<SongView>, input: Seq<SongView>, f: Seq<char>, desc: bool)
    requires
        stable_sort_of(out, input, f, desc),
    ensures
        forall|x: SongView| #[trigger] occurrences(out, x) == occurrences(input, x),
{
    assert forall|x: SongView| #[trigger] occurrences(out, x) == occurrences(input, x) by {
        let p = |y: SongView| same_rank(f, y, x);
        let q = |y: SongView| y == x;
        assert(rank_class(out, f, x) == rank_class(input, f, x));
        lemma_filter_within(out, p, q);
        lemma_filter_within(input, p, q);
        assert(out.filter(p) == rank_class(out, f, x));
        assert(input.filter(p) == rank_class(input, f, x));
    }
}

/// Sorts songs on tag `f`, stably, in descending order when `desc`.
pub fn sort_songs(items: Vec<JsonObject>, f: &str, desc: bool) -> (r: Vec<JsonObject>)
    ensures
        stable_sort_of(views(r@), views(items@), f@, desc),
{
    let mut r: Vec<JsonObject> = Vec::new();
    let mut items = items;
    let ghost input = views(items@);
    let mut i: usize = 0;
    let n = items.len();
    proof {
        assert forall|c: SongView| #[trigger] rank_class(views(r@), f@, c) == rank_class(
            input.take(0),
            f@,
            c,
        ) by {
            assert(views(r@) =~= input.take(0));
        }
    }
    while i < n
        invariant
            n == items@.len(),
            input == views(items@),
            i <= n,
            views(r@).len() == i,
            in_order(views(r@), f@, desc),
            forall|c: SongView| #[trigger] rank_class(views(r@), f@, c) == rank_class(
                input.take(i as int),
                f@,
                c,
            ),
        decreases n - i,
    {
        let x = items[i].copy();
        let ghost v = views(r@);
        let ghost xv = x@;
        let mut p: usize = 0;
        while p < r.len() && !sorts_before_of(f, desc, &x, &r[p])
            invariant
                v == views(r@),
                xv == x@,
                p <= r@.len(),
                forall|q: int| 0 <= q < p ==> !sorts_before(f@, desc, xv, #[trigger] v[q]),
            decreases r@.len() - p,
        {
            p = p + 1;
        }
        proof {
            assert forall|q: int| p <= q < v.len() implies sorts_before(f@, desc, xv, #[trigger] v[q]) by {
                if q > p {
                    assert(!sorts_before(f@, desc, v[q], v[p as int]));
                    lemma_before_then_not_after(f@, desc, xv, v[p as int], v[q]);
                }
            }
        }
        r.insert(p, x);
        proof {
            let w = views(r@);
            assert(w =~= v.insert(p as int, xv));
            assert forall|a: int, b: int| 0 <= a < b < w.len() implies !sorts_before(
                f@,
                desc,
                #[trigger] w[b],
                #[trigger] w[a],
            ) by {
                if a < p && b < p {
                    assert(w[a] == v[a] && w[b] == v[b]);
                } else if a < p && b == p {
                    assert(w[a] == v[a]);
                } else if a < p {
                    assert(w[a] == v[a] && w[b] == v[b - 1]);
                    assert(!sorts_before(f@, desc, v[b - 1], v[a]));
                } else if a == p {
                    assert(w[b] == v[b - 1]);
                    lemma_rank(f@, desc, xv, v[b - 1]);
                } else {
                    assert(w[a] == v[a - 1] && w[b] == v[b - 1]);
                }
            }
            assert(input.take(i + 1) =~= input.take(i as int).push(xv));
            assert forall|c: SongView| #[trigger] rank_class(w, f@, c) == rank_class(
                input.take(i + 1),
                f@,
                c,
            ) by {
                lemma_class_after_insert(v, p as int, xv, f@, desc, c);
                input.take(i as int).lemma_filter_push(xv, |y: SongView| same_rank(f@, y, c));
            }
        }
        i = i + 1;
    }
    proof {
        assert(input.take(n as int) =~= input);
    }
    r
}

// ---------------------------------------------------------------------------
// Pages
// ---------------------------------------------------------------------------

/// The index of the first song of page `page` (pages count from 1; page 0 is page 1).
pub open spec fn page_start(page: nat, limit: nat) -> nat {
    ((if page > 0 {
        page - 1
    } else {
        0
    }) * limit) as nat
}

/// Page `page` of `limit` songs (`skip(start).take(limit)`); every song when `limit` is 0.
pub open spec fn page_of(s: Seq<SongView>, page: nat, limit: nat) -> Seq<SongView> {
    if limit == 0 {
        s
    } else if page_start(page, limit) >= s.len() {
        Seq::empty()
    } else if page_start(page, limit) + limit >= s.len() {
        s.subrange(page_start(page, limit) as int, s.len() as int)
    } else {
        s.subrange(page_start(page, limit) as int, (page_start(page, limit) + limit) as int)
    }
}

/// Pages 1 to `k`, one after another.
pub open spec fn first_pages(s: Seq<SongView>, k: nat, limit: nat) -> Seq<SongView>
    decreases k,
{
    if k == 0 {
        Seq::empty()
    } else {
        first_pages(s, (k - 1) as nat, limit) + page_of(s, k, limit)
    }
}

/// The pages, one after another, give the songs in order, none left out or repeated: pages 1
/// to `k` are the first `k * limit` songs (or all, when there are fewer).
pub proof fn lemma_pages_cover(s: Seq<SongView>, k: nat, limit: nat)
    requires
        limit > 0,
    ensures
        first_pages(s, k, limit) == s.take(if k * limit <= s.len() {
            (k * limit) as int
        } else {
            s.len() as int
        }),
    decreases k,
{
    if k == 0 {
        assert(s.take(0) =~= Seq::<SongView>::empty());
    } else {
        lemma_pages_cover(s, (k - 1) as nat, limit);
        let a = ((k - 1) * limit) as int;
        assert(a + limit == k * limit) by (nonlinear_arith)
            requires
                a == (k - 1) * limit,
                k >= 1,
        ;
        assert(page_start(k, limit) == a);
        let prev_end = if a <= s.len() {
            a
        } else {
            s.len() as int
        };
        let end = if k * limit <= s.len() {
            (k * limit) as int
        } else {
            s.len() as int
        };
        if a >= s.len() {
            assert(page_of(s, k, limit) =~= Seq::<SongView>::empty());
            assert(first_pages(s, k, limit) =~= s.take(prev_end));
        } else {
            assert(s.take(prev_end) + s.subrange(a, end) =~= s.take(end));
        }
    }
}

/// The songs for one page of the library view (`get_library_chunk`): the songs the query
/// lists, sorted stably on `sort_field` when there is one, cut to page `page` of `limit`
/// songs (all of them when `limit` is 0).
pub fn get_library_chunk(
    page: usize,
    limit: usize,
    sort_field: Option<&str>,
    sort_desc: bool,
    search_query: &str,
    db: &Vec<JsonObject>,
) -> (r: Vec<JsonObject>)
    requires
        page_start(page as nat, limit as nat) <= usize::MAX,
    ensures
        exists|sorted: Seq<SongView>|
            {
                &&& match sort_field {
                    Some(f) => stable_sort_of(
                        sorted,
                        listed_songs(views(db@), search_query@),
                        f@,
                        sort_desc,
                    ),
                    None => sorted == listed_songs(views(db@), search_query@),
                }
                &&& views(r@) == page_of(sorted, page as nat, limit as nat)
            },
{
    let listed = listed_copies(search_query, db);
    let sorted = match sort_field {
        Some(f) => sort_songs(listed, f, sort_desc),
        None => listed,
    };
    let ghost sv = views(sorted@);
    let ghost lv = listed_songs(views(db@), search_query@);
    assert(match sort_field {
        Some(f) => stable_sort_of(sv, lv, f@, sort_desc),
        None => sv == lv,
    });
    if limit == 0 {
        assert(views(sorted@) == page_of(sv, page as nat, limit as nat));
        return sorted;
    }
    let before: usize = if page > 0 {
        page - 1
    } else {
        0
    };
    proof {
        assert(before * limit == page_start(page as nat, limit as nat)) by (nonlinear_arith)
            requires
                before == (if page > 0 {
                    page - 1
                } else {
                    0
                }),
        ;
    }
    let start = before * limit;
    let mut out: Vec<JsonObject> = Vec::new();
    if start >= sorted.len() {
        assert(views(out@) =~= page_of(sv, page as nat, limit as nat));
        return out;
    }
    let end = if sorted.len() - start <= limit {
        sorted.len()
    } else {
        start + limit
    };
    let mut k = start;
    while k < end
        invariant
            sv == views(sorted@),
            start <= k <= end <= sorted@.len(),
            views(out@) == sv.subrange(start as int, k as int),
        decreases end - k,
    {
        let c = sorted[k].copy();
        let ghost b = out@;
        out.push(c);
        proof {
            assert(views(out@) =~= views(b).push(c@));
            assert(views(out@) =~= sv.subrange(start as int, k + 1));
        }
        k = k + 1;
    }
    assert(views(out@) =~= page_of(sv, page as nat, limit as nat));
    out
}

// ---------------------------------------------------------------------------
// Lists of distinct values
// ---------------------------------------------------------------------------

/// Strictly increasing in the order of `String`.
pub open spec fn strictly_sorted(s: Seq<Seq<char>>) -> bool {
    forall|i: int, j: int| 0 <= i < j < s.len() ==> text_less(#[trigger] s[i], #[trigger] s[j])
}

/// The string of tag `k` of a song, trimmed.
pub open spec fn trimmed_field(song: SongView, k: Seq<char>) -> Option<Seq<char>> {
    match str_field(song, k) {
        Some(s) => Some(trimmed(s)),
        None => None,
    }
}

/// `t` is the trimmed, non-empty string of tag `k` of one of the songs.
pub open spec fn is_tag_value(db: Seq<SongView>, k: Seq<char>, t: Seq<char>) -> bool {
    t.len() > 0 && exists|i: int| 0 <= i < db.len() && #[trigger] trimmed_field(db[i], k) == Some(t)
}

/// Adds `t` to a strictly sorted list of strings, unless it is there.
pub fn insert_sorted_unique(v: &mut Vec<String>, t: String)
    requires
        strictly_sorted(texts(old(v)@)),
    ensures
        strictly_sorted(texts(final(v)@)),
        forall|x: Seq<char>|
            #[trigger] texts(final(v)@).contains(x) <==> (texts(old(v)@).contains(x) || x == t@),
{
    let ghost old_t = texts(v@);
    let mut p: usize = 0;
    while p < v.len() && compare_text(v[p].as_str(), t.as_str()) == Order::Less
        invariant
            old_t == texts(v@),
            strictly_sorted(old_t),
            p <= v@.len(),
            forall|q: int| 0 <= q < p ==> text_less(#[trigger] old_t[q], t@),
        decreases v@.len() - p,
    {
        p = p + 1;
    }
    if p < v.len() && compare_text(v[p].as_str(), t.as_str()) == Order::Equal {
        proof {
            assert(old_t[p as int] == t@);
        }
        return;
    }
    proof {
        assert forall|q: int| p <= q < old_t.len() implies text_less(t@, #[trigger] old_t[q]) by {
            if q > p {
                lemma_text_less_transitive(t@, old_t[p as int], old_t[q]);
            }
        }
    }
    let ghost tv = t@;
    v.insert(p, t);
    proof {
        let nt = texts(v@);
        assert(nt =~= old_t.insert(p as int, tv));
        assert forall|i: int, j: int| 0 <= i < j < nt.len() implies text_less(
            #[trigger] nt[i],
            #[trigger] nt[j],
        ) by {
            if j < p {
            } else if j == p {
            } else if i < p {
                lemma_text_less_transitive(old_t[i], tv, old_t[j - 1]);
            } else if i == p {
            } else {
            }
        }
        assert forall|x: Seq<char>| #[trigger] nt.contains(x) <==> (old_t.contains(x) || x == tv) by {
            if nt.contains(x) {
                let i = choose|i: int| 0 <= i < nt.len() && nt[i] == x;
                if i < p {
                    assert(old_t[i] == x);
                } else if i > p {
                    assert(old_t[i - 1] == x);
                }
            }
            if old_t.contains(x) {
                let i = choose|i: int| 0 <= i < old_t.len() && old_t[i] == x;
                if i < p {
                    assert(nt[i] == x);
                } else {
                    assert(nt[i + 1] == x);
                }
            }
            if x == tv {
                assert(nt[p as int] == x);
            }
        }
    }
}

/// The distinct trimmed, non-empty values of tag `k`, sorted.
pub fn tag_values(db: &Vec<JsonObject>, k: &str) -> (r: Vec<String>)
    ensures
        strictly_sorted(texts(r@)),
        forall|t: Seq<char>| #[trigger] texts(r@).contains(t) <==> is_tag_value(views(db@), k@, t),
{
    let mut r: Vec<String> = Vec::new();
    let mut i: usize = 0;
    while i < db.len()
        invariant
            i <= db.len(),
            strictly_sorted(texts(r@)),
            forall|t: Seq<char>| #[trigger] texts(r@).contains(t) <==> is_tag_value(
                views(db@).take(i as int),
                k@,
                t,
            ),
        decreases db.len() - i,
    {
        let ghost prev = texts(r@);
        let ghost song = db@[i as int]@;
        let ghost tf = trimmed_field(song, k@);
        match db[i].get_str(k) {
            Some(s) => {
                let t = trim(s.as_str());
                assert(tf == Some(t@));
                if !t.as_str().is_empty() {
                    insert_sorted_unique(&mut r, t);
                }
            },
            None => {
                assert(tf is None);
            },
        }
        assert(forall|x: Seq<char>|
            #[trigger] texts(r@).contains(x) <==> (prev.contains(x) || (tf == Some(x) && x.len()
                > 0)));
        proof {
            let before = views(db@).take(i as int);
            let after = views(db@).take(i + 1);
            assert(after[i as int] == song);
            assert forall|t: Seq<char>| #[trigger] texts(r@).contains(t) <==> is_tag_value(
                after,
                k@,
                t,
            ) by {
                if is_tag_value(after, k@, t) {
                    let j = choose|j: int|
                        0 <= j < after.len() && #[trigger] trimmed_field(after[j], k@) == Some(t);
                    if j < i {
                        assert(before[j] == after[j]);
                        assert(is_tag_value(before, k@, t));
                    }
                }
                if is_tag_value(before, k@, t) {
                    let j = choose|j: int|
                        0 <= j < before.len() && #[trigger] trimmed_field(before[j], k@) == Some(t);
                    assert(before[j] == after[j]);
                }
                if tf == Some(t) && t.len() > 0 {
                    assert(trimmed_field(after[i as int], k@) == Some(t));
                }
            }
        }
        i = i + 1;
    }
    proof {
        assert(views(db@).take(db.len() as int) =~= views(db@));
    }
    r
}

/// The albums of the library, each once, sorted (`get_album_list`).
pub fn get_album_list(db: &Vec<JsonObject>) -> (r: Vec<String>)
    ensures
        strictly_sorted(texts(r@)),
        forall|t: Seq<char>| #[trigger] texts(r@).contains(t) <==> is_tag_value(views(db@), "album"@, t),
{
    tag_values(db, "album")
}

/// The artists of the library, each once, sorted (`get_artist_list`).
pub fn get_artist_list(db: &Vec<JsonObject>) -> (r: Vec<String>)
    ensures
        strictly_sorted(texts(r@)),
        forall|t: Seq<char>| #[trigger] texts(r@).contains(t) <==> is_tag_value(views(db@), "artist"@, t),
{
    tag_values(db, "artist")
}

/// The titles, artists and albums of the library, each list without repeats and sorted
/// (`get_autocomplete_lists`).
pub fn get_autocomplete_lists(db: &Vec<JsonObject>) -> (r: AutocompleteLists)
    ensures
        strictly_sorted(texts(r.title@)),
        strictly_sorted(texts(r.artist@)),
        strictly_sorted(texts(r.album@)),
        forall|t: Seq<char>| #[trigger] texts(r.title@).contains(t) <==> is_tag_value(views(db@), "title"@, t),
        forall|t: Seq<char>| #[trigger] texts(r.artist@).contains(t) <==> is_tag_value(views(db@), "artist"@, t),
        forall|t: Seq<char>| #[trigger] texts(r.album@).contains(t) <==> is_tag_value(views(db@), "album"@, t),
{
    AutocompleteLists {
        title: tag_values(db, "title"),
        artist: tag_values(db, "artist"),
        album: tag_values(db, "album"),
    }
}

// ---------------------------------------------------------------------------
// Editing songs
// ---------------------------------------------------------------------------

/// The song's music file is `name`.
pub open spec fn music_file_is(song: SongView, name: Seq<char>) -> bool {
    str_field(song, "musicFilename"@) == Some(name)
}

/// Song `i` is the first whose music file is `name`.
pub open spec fn first_with_file(db: Seq<SongView>, name: Seq<char>, i: int) -> bool {
    &&& 0 <= i < db.len()
    &&& music_file_is(db[i], name)
    &&& forall|j: int| 0 <= j < i ==> !music_file_is(#[trigger] db[j], name)
}

/// Some song has music file `name`.
pub open spec fn has_file(db: Seq<SongView>, name: Seq<char>) -> bool {
    exists|i: int| 0 <= i < db.len() && music_file_is(#[trigger] db[i], name)
}

/// The position of the first song whose music file is `name`.
pub fn find_song(db: &Vec<JsonObject>, name: &str) -> (r: Option<usize>)
    ensures
        r matches Some(i) ==> first_with_file(views(db@), name@, i as int),
        r is None ==> !has_file(views(db@), name@),
{
    let mut i: usize = 0;
    while i < db.len()
        invariant
            i <= db.len(),
            forall|j: int| 0 <= j < i ==> !music_file_is(#[trigger] views(db@)[j], name@),
        decreases db.len() - i,
    {
        match db[i].get_str("musicFilename") {
            Some(f) => {
                if crate::text::same_text(f.as_str(), name) {
                    return Some(i);
                }
            },
            None => {},
        }
        i = i + 1;
    }
    None
}

/// The text stored for a tag edit: lyrics get their line endings normalized to LF.
pub open spec fn stored_text(field: Seq<char>, value: Seq<char>) -> Seq<char> {
    if field == "lyric"@ {
        normalized_newlines(value)
    } else {
        value
    }
}

/// Sets tag `field` of the first song whose music file is `music_filename`
/// (`update_song_by_id`); `false` when there is no such song.
pub fn update_song_by_id(music_filename: &str, field: &str, value: &str, db: &mut Vec<JsonObject>) -> (r: bool)
    ensures
        r == has_file(views(old(db)@), music_filename@),
        r ==> exists|i: int|
            first_with_file(views(old(db)@), music_filename@, i) && views(final(db)@) == views(
                old(db)@,
            ).update(
                i,
                views(old(db)@)[i].insert(field@, Json::Str(stored_text(field@, value@))),
            ),
        !r ==> views(final(db)@) == views(old(db)@),
{
    match find_song(db, music_filename) {
        Some(i) => {
            let ghost old_v = views(db@);
            let stored = if crate::text::same_text(field, "lyric") {
                normalize_newlines(value)
            } else {
                value.to_string()
            };
            let mut song = db.remove(i);
            song.insert(field.to_string(), JsonValue::Str(stored));
            db.insert(i, song);
            proof {
                assert(views(db@) =~= old_v.update(
                    i as int,
                    old_v[i as int].insert(field@, Json::Str(stored_text(field@, value@))),
                ));
            }
            true
        },
        None => false,
    }
}

/// Removes the first song whose music file is `music_filename` and gives it back
/// (`delete_song_by_id`); `None`, and the library unchanged, when there is no such song.
pub fn delete_song_by_id(music_filename: &str, db: &mut Vec<JsonObject>) -> (r: Option<JsonObject>)
    ensures
        r is Some == has_file(views(old(db)@), music_filename@),
        r matches Some(s) ==> exists|i: int|
            first_with_file(views(old(db)@), music_filename@, i) && s@ == views(old(db)@)[i]
                && views(final(db)@) == views(old(db)@).remove(i),
        r is None ==> views(final(db)@) == views(old(db)@),
{
    match find_song(db, music_filename) {
        Some(i) => {
            let ghost old_v = views(db@);
            let s = db.remove(i);
            proof {
                assert(views(db@) =~= old_v.remove(i as int));
            }
            Some(s)
        },
        None => None,
    }
}

// ---------------------------------------------------------------------------
// Editing several songs at once
// ---------------------------------------------------------------------------

/// The file name that batch edits select songs by: the last piece of `musicFilename`.
pub open spec fn file_key(song: SongView) -> Seq<char> {
    last_segment(text_field(song, "musicFilename"@))
}

/// The song is one of those named.
pub open spec fn chosen(song: SongView, names: Seq<Seq<char>>) -> bool {
    names.contains(file_key(song))
}

/// The songs named, in library order.
pub open spec fn selection(db: Seq<SongView>, names: Seq<Seq<char>>) -> Seq<SongView> {
    db.filter(|s: SongView| chosen(s, names))
}

/// The songs not named, in library order.
pub open spec fn unselected(db: Seq<SongView>, names: Seq<Seq<char>>) -> Seq<SongView> {
    db.filter(|s: SongView| !chosen(s, names))
}

/// A batch removal parts the library: the songs removed are those named, the songs kept
/// are the others, and together they are as many as the library held.
pub proof fn lemma_selection_parts(db: Seq<SongView>, names: Seq<Seq<char>>)
    ensures
        selection(db, names).len() + unselected(db, names).len() == db.len(),
        forall|i: int| 0 <= i < selection(db, names).len() ==> chosen(#[trigger] selection(db, names)[i], names),
        forall|i: int| 0 <= i < unselected(db, names).len() ==> !chosen(#[trigger] unselected(db, names)[i], names),
    decreases db.len(),
{
    let yes = |s: SongView| chosen(s, names);
    let no = |s: SongView| !chosen(s, names);
    if db.len() == 0 {
        assert(db.filter(yes) =~= db);
        assert(db.filter(no) =~= db);
    } else {
        let t = db.drop_last();
        lemma_selection_parts(t, names);
        assert(t.push(db.last()) =~= db);
        t.lemma_filter_push(db.last(), yes);
        t.lemma_filter_push(db.last(), no);
    }
    assert forall|i: int| 0 <= i < selection(db, names).len() implies chosen(#[trigger] selection(db, names)[i], names) by {
        db.lemma_filter_pred(yes, i);
    }
    assert forall|i: int| 0 <= i < unselected(db, names).len() implies !chosen(#[trigger] unselected(db, names)[i], names) by {
        db.lemma_filter_pred(no, i);
    }
}

/// Whether one of `names` is `t`.
pub fn names_contain(names: &Vec<String>, t: &str) -> (r: bool)
    ensures
        r == texts(names@).contains(t@),
{
    let mut i: usize = 0;
    while i < names.len()
        invariant
            i <= names.len(),
            forall|j: int| 0 <= j < i ==> texts(names@)[j] != t@,
        decreases names.len() - i,
    {
        if crate::text::same_text(names[i].as_str(), t) {
            assert(texts(names@)[i as int] == t@);
            return true;
        }
        i = i + 1;
    }
    false
}

/// Whether a song is one of those named.
pub fn is_chosen(song: &JsonObject, names: &Vec<String>) -> (r: bool)
    ensures
        r == chosen(song@, texts(names@)),
{
    let f = song.text_or_empty("musicFilename");
    let k = last_path_segment(f.as_str());
    names_contain(names, k.as_str())
}

/// The text that marks "keep each song's own value" in batch edits.
pub open spec fn keep_marker() -> Seq<char> {
    "< 維持 >"@
}

/// The tags that a batch edit shows.
pub open spec fn is_common_key(k: Seq<char>) -> bool {
    ||| k == "title"@
    ||| k == "artist"@
    ||| k == "album"@
    ||| k == "genre"@
    ||| k == "year"@
    ||| k == "track"@
    ||| k == "disc"@
    ||| k == "bpm"@
    ||| k == "composer"@
    ||| k == "comment"@
    ||| k == "lyric"@
}

/// The value a batch edit shows for tag `k` of the selected songs: their common text, or the
/// keep marker when they differ.
pub open spec fn common_value(sel: Seq<SongView>, k: Seq<char>) -> Seq<char> {
    if forall|j: int| 0 <= j < sel.len() ==> text_field(#[trigger] sel[j], k) == text_field(sel[0], k) {
        text_field(sel[0], k)
    } else {
        keep_marker()
    }
}

/// Copies of the named songs, in library order.
pub fn selected_copies(filenames: &Vec<String>, db: &Vec<JsonObject>) -> (r: Vec<JsonObject>)
    ensures
        views(r@) == selection(views(db@), texts(filenames@)),
{
    let ghost pred = |s: SongView| chosen(s, texts(filenames@));
    let mut r: Vec<JsonObject> = Vec::new();
    let mut i: usize = 0;
    while i < db.len()
        invariant
            i <= db.len(),
            pred == (|s: SongView| chosen(s, texts(filenames@))),
            views(r@) == views(db@).take(i as int).filter(pred),
        decreases db.len() - i,
    {
        proof {
            views(db@).take(i as int).lemma_filter_push(db@[i as int]@, pred);
            assert(views(db@).take(i + 1) =~= views(db@).take(i as int).push(db@[i as int]@));
        }
        if is_chosen(&db[i], filenames) {
            let c = db[i].copy();
            let ghost b = r@;
            r.push(c);
            proof {
                assert(views(r@) =~= views(b).push(c@));
            }
        }
        i = i + 1;
    }
    proof {
        assert(views(db@).take(db.len() as int) =~= views(db@));
    }
    r
}

fn set_common(r: &mut JsonObject, sel: &Vec<JsonObject>, k: &str)
    requires
        sel@.len() > 0,
    ensures
        final(r)@ == old(r)@.insert(k@, Json::Str(common_value(views(sel@), k@))),
{
    let first = sel[0].text_or_empty(k);
    let mut same = true;
    let mut j: usize = 0;
    while j < sel.len()
        invariant
            j <= sel@.len(),
            first@ == text_field(views(sel@)[0], k@),
            same == forall|m: int| 0 <= m < j ==> text_field(#[trigger] views(sel@)[m], k@) == first@,
        decreases sel@.len() - j,
    {
        let t = sel[j].text_or_empty(k);
        if !crate::text::same_text(t.as_str(), first.as_str()) {
            same = false;
        }
        proof {
            assert(views(sel@)[j as int] == sel@[j as int]@);
        }
        j = j + 1;
    }
    let v = if same {
        first
    } else {
        "< 維持 >".to_string()
    };
    r.insert(k.to_string(), JsonValue::Str(v));
}

/// The values that a batch edit of the named songs shows (`get_common_values_for_selected`):
/// no members when no song is named, else each common tag with its common text or the keep
/// marker.
#[verifier::rlimit(40)]
pub fn get_common_values_for_selected(filenames: &Vec<String>, db: &Vec<JsonObject>) -> (r: JsonObject)
    ensures
        ({
            let sel = selection(views(db@), texts(filenames@));
            &&& sel.len() == 0 ==> r@ == Map::<Seq<char>, Json>::empty()
            &&& sel.len() > 0 ==> r@ == common_values(sel)
        }),
{
    let sel = selected_copies(filenames, db);
    let mut r = JsonObject::new();
    if sel.len() == 0 {
        return r;
    }
    set_common(&mut r, &sel, "title");
    set_common(&mut r, &sel, "artist");
    set_common(&mut r, &sel, "album");
    set_common(&mut r, &sel, "genre");
    set_common(&mut r, &sel, "year");
    set_common(&mut r, &sel, "track");
    set_common(&mut r, &sel, "disc");
    set_common(&mut r, &sel, "bpm");
    set_common(&mut r, &sel, "composer");
    set_common(&mut r, &sel, "comment");
    set_common(&mut r, &sel, "lyric");
    proof {
        let selv = selection(views(db@), texts(filenames@));
        assert(r@ =~= Map::new(
            |k: Seq<char>| is_common_key(k),
            |k: Seq<char>| Json::Str(common_value(selv, k)),
        ));
    }
    r
}

/// The members of a batch edit that are applied: all but those holding the keep marker.
pub open spec fn applied_updates(u: Map<Seq<char>, Json>) -> Map<Seq<char>, Json> {
    Map::new(|k: Seq<char>| u.contains_key(k) && u[k] != Json::Str(keep_marker()), |k: Seq<char>| u[k])
}

fn is_keep_marker(v: &JsonValue) -> (r: bool)
    ensures
        r == (v@ == Json::Str(keep_marker())),
{
    match v {
        JsonValue::Str(s) => crate::text::same_text(s.as_str(), "< 維持 >"),
        _ => false,
    }
}

/// What a batch edit of `sel` shows: each tag with its common text or the keep marker.
pub open spec fn common_values(sel: Seq<SongView>) -> Map<Seq<char>, Json> {
    Map::new(|k: Seq<char>| is_common_key(k), |k: Seq<char>| Json::Str(common_value(sel, k)))
}

/// Saving a batch edit with the values it showed changes no song of the batch, when each
/// song holds every shown tag as text.
pub proof fn lemma_shown_values_change_nothing(sel: Seq<SongView>, j: int)
    requires
        0 <= j < sel.len(),
        forall|i: int, k: Seq<char>|
            0 <= i < sel.len() && is_common_key(k) ==> (#[trigger] sel[i].contains_key(k))
                && sel[i][k] is Str,
    ensures
        sel[j].union_prefer_right(applied_updates(common_values(sel))) == sel[j],
{
    let u = applied_updates(common_values(sel));
    assert forall|k: Seq<char>| #[trigger] u.contains_key(k) implies sel[j].contains_key(k) && u[k] == sel[j][k] by {
        assert(is_common_key(k));
        assert(common_value(sel, k) != keep_marker());
        assert(forall|m: int| 0 <= m < sel.len() ==> text_field(#[trigger] sel[m], k) == text_field(sel[0], k));
        assert(text_field(sel[j], k) == text_field(sel[0], k));
        assert(sel[j].contains_key(k) && sel[j][k] is Str);
        assert(sel[j][k] == Json::Str(text_field(sel[j], k)));
    }
    assert(sel[j].union_prefer_right(u) =~= sel[j]);
}

/// Applies the members of a batch edit to one song.
pub fn apply_updates(song: &mut JsonObject, updates: &JsonObject)
    ensures
        final(song)@ == old(song)@.union_prefer_right(applied_updates(updates@)),
{
    let e = updates.entries();
    let ghost orig = song@;
    proof {
        crate::json::lemma_members_model(e@, e@.len());
        assert(applied_updates(crate::json::members_model(e@, 0)) =~= Map::<Seq<char>, Json>::empty());
        assert(orig.union_prefer_right(Map::<Seq<char>, Json>::empty()) =~= orig);
    }
    let mut i: usize = 0;
    while i < e.len()
        invariant
            i <= e@.len(),
            crate::json::keys_sorted(e@),
            updates@ == crate::json::members_model(e@, e@.len()),
            song@ == orig.union_prefer_right(applied_updates(crate::json::members_model(e@, i as nat))),
        decreases e@.len() - i,
    {
        proof {
            crate::json::lemma_members_model(e@, i as nat);
            crate::json::lemma_members_model(e@, (i + 1) as nat);
            assert forall|j: int| 0 <= j < i implies e@[j].0@ != e@[i as int].0@ by {
                crate::json::lemma_sorted_distinct(e@, j, i as int);
            }
        }
        let ghost prev = crate::json::members_model(e@, i as nat);
        let ghost next = crate::json::members_model(e@, (i + 1) as nat);
        if !is_keep_marker(&e[i].1) {
            let k = e[i].0.clone();
            let v = e[i].1.copy();
            song.insert(k, v);
            proof {
                assert(applied_updates(next) =~= applied_updates(prev).insert(e@[i as int].0@, e@[i as int].1@));
                assert(song@ =~= orig.union_prefer_right(applied_updates(next)));
            }
        } else {
            proof {
                assert(applied_updates(next) =~= applied_updates(prev));
            }
        }
        i = i + 1;
    }
}

/// Applies a batch edit to the named songs (`update_multiple_songs`); gives how many songs it
/// changed.
pub fn update_multiple_songs(filenames: &Vec<String>, updates: &JsonObject, db: &mut Vec<JsonObject>) -> (r: usize)
    ensures
        views(final(db)@).len() == views(old(db)@).len(),
        forall|j: int|
            0 <= j < views(old(db)@).len() ==> #[trigger] views(final(db)@)[j] == if chosen(
                views(old(db)@)[j],
                texts(filenames@),
            ) {
                views(old(db)@)[j].union_prefer_right(applied_updates(updates@))
            } else {
                views(old(db)@)[j]
            },
        r == selection(views(old(db)@), texts(filenames@)).len(),
{
    let ghost old_v = views(db@);
    let ghost pred = |s: SongView| chosen(s, texts(filenames@));
    let mut count: usize = 0;
    let mut i: usize = 0;
    while i < db.len()
        invariant
            i <= db@.len(),
            db@.len() == old_v.len(),
            pred == (|s: SongView| chosen(s, texts(filenames@))),
            forall|j: int|
                0 <= j < old_v.len() ==> #[trigger] views(db@)[j] == if j < i && chosen(
                    old_v[j],
                    texts(filenames@),
                ) {
                    old_v[j].union_prefer_right(applied_updates(updates@))
                } else {
                    old_v[j]
                },
            count == old_v.take(i as int).filter(pred).len(),
            count <= i,
        decreases db@.len() - i,
    {
        proof {
            old_v.take(i as int).lemma_filter_push(old_v[i as int], pred);
            assert(old_v.take(i + 1) =~= old_v.take(i as int).push(old_v[i as int]));
            assert(views(db@)[i as int] == old_v[i as int]);
            assert(db@[i as int]@ == old_v[i as int]);
        }
        if is_chosen(&db[i], filenames) {
            let ghost before = views(db@);
            let mut s = db.remove(i);
            apply_updates(&mut s, updates);
            db.insert(i, s);
            proof {
                assert forall|j: int| 0 <= j < old_v.len() implies #[trigger] views(db@)[j] == if j < i + 1
                    && chosen(old_v[j], texts(filenames@)) {
                    old_v[j].union_prefer_right(applied_updates(updates@))
                } else {
                    old_v[j]
                } by {
                    if j != i {
                        assert(views(db@)[j] == before[j]);
                    }
                }
            }
            count = count + 1;
        }
        i = i + 1;
    }
    proof {
        assert(old_v.take(old_v.len() as int) =~= old_v);
    }
    count
}

/// Removes the named songs (`delete_multiple_songs`) and gives them back, in library order.
pub fn delete_multiple_songs(filenames: &Vec<String>, db: &mut Vec<JsonObject>) -> (r: Vec<JsonObject>)
    ensures
        views(final(db)@) == unselected(views(old(db)@), texts(filenames@)),
        views(r@) == selection(views(old(db)@), texts(filenames@)),
{
    let ghost old_v = views(db@);
    let ghost yes = |s: SongView| chosen(s, texts(filenames@));
    let ghost no = |s: SongView| !chosen(s, texts(filenames@));
    let mut kept: Vec<JsonObject> = Vec::new();
    let mut removed: Vec<JsonObject> = Vec::new();
    let mut i: usize = 0;
    while i < db.len()
        invariant
            i <= db@.len(),
            old_v == views(db@),
            yes == (|s: SongView| chosen(s, texts(filenames@))),
            no == (|s: SongView| !chosen(s, texts(filenames@))),
            views(kept@) == old_v.take(i as int).filter(no),
            views(removed@) == old_v.take(i as int).filter(yes),
        decreases db@.len() - i,
    {
        proof {
            old_v.take(i as int).lemma_filter_push(old_v[i as int], yes);
            old_v.take(i as int).lemma_filter_push(old_v[i as int], no);
            assert(old_v.take(i + 1) =~= old_v.take(i as int).push(old_v[i as int]));
        }
        let c = db[i].copy();
        if is_chosen(&db[i], filenames) {
            let ghost b = removed@;
            removed.push(c);
            proof {
                assert(views(removed@) =~= views(b).push(c@));
            }
        } else {
            let ghost b = kept@;
            kept.push(c);
            proof {
                assert(views(kept@) =~= views(b).push(c@));
            }
        }
        i = i + 1;
    }
    proof {
        assert(old_v.take(old_v.len() as int) =~= old_v);
    }
    *db = kept;
    removed
}

/// The answer to a batch edit or removal: `{"count": n, "success": true}`.
pub fn batch_result(count: usize) -> (r: JsonValue)
    ensures
        r@ == Json::Object(
            Map::<Seq<char>, Json>::empty().insert("success"@, Json::Bool(true)).insert(
                "count"@,
                Json::Number(decimal(count as nat)),
            ),
        ),
{
    let mut o = JsonObject::new();
    o.insert("success".to_string(), JsonValue::Bool(true));
    o.insert("count".to_string(), JsonValue::Number(u64_text(count as u64)));
    JsonValue::Object(o)
}

} // verus!

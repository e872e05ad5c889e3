//! Grouping: parsed movies folded into fingerprint-keyed groups, each
//! group's chapters sorted by identifier order, and the groups themselves
//! sorted by fingerprint so that run-to-run index assignment is stable.

use crate::encoding::{encoding_prefix, Encoding};
use crate::identifier::{
    id_canon, id_comparable, id_lt, lemma_identifier_order_transitive,
    lemma_identifier_order_trichotomy, IdModel, Identifier,
};
use crate::movie::{movie_of, movie_valid, Fingerprint, FingerprintModel, Movie, MovieModel};
use crate::text::seq_lt;
use vstd::prelude::*;
use vstd::seq_lib::group_to_multiset_ensures;

verus! {

/// Mathematical model of a group: one fingerprint and its chapter sequence.
pub struct GroupModel {
    pub fingerprint: FingerprintModel,
    pub chapters: Seq<IdModel>,
}

/// Views of the element sequences used below.
pub open spec fn ids_view(v: Seq<Identifier>) -> Seq<IdModel> {
    v.map_values(|id: Identifier| id@)
}

pub open spec fn movies_view(v: Seq<Movie>) -> Seq<MovieModel> {
    v.map_values(|m: Movie| m@)
}

pub open spec fn groups_view(v: Seq<MovieGroup>) -> Seq<GroupModel> {
    v.map_values(|g: MovieGroup| g@)
}

pub open spec fn names_view(v: Seq<String>) -> Seq<Seq<char>> {
    v.map_values(|s: String| s@)
}

/// One fingerprint together with its chapters, in sorted order.
#[derive(Debug)]
pub struct MovieGroup {
    pub fingerprint: Fingerprint,
    pub chapters: Vec<Identifier>,
}

impl View for MovieGroup {
    type V = GroupModel;

    open spec fn view(&self) -> GroupModel {
        GroupModel { fingerprint: self.fingerprint@, chapters: ids_view(self.chapters@) }
    }
}

impl Clone for MovieGroup {
    fn clone(&self) -> (r: MovieGroup)
        ensures
            r@ == self@,
    {
        let mut chapters: Vec<Identifier> = Vec::new();
        let mut i: usize = 0;
        let n = self.chapters.len();
        while i < n
            invariant
                0 <= i <= n,
                n == self.chapters@.len(),
                ids_view(chapters@) == ids_view(self.chapters@).take(i as int),
            decreases n - i,
        {
            let ghost prev = chapters@;
            chapters.push(self.chapters[i].clone());
            proof {
                assert(chapters@.len() == prev.len() + 1);
                assert(ids_view(chapters@).len() == chapters@.len());
                assert(ids_view(prev).len() == prev.len());
                assert(prev.len() == i);
                let cur = ids_view(chapters@);
                let want = ids_view(self.chapters@).take(i + 1);
                assert(want.len() == i + 1);
                assert(cur.len() == want.len());
                assert forall|k: int| 0 <= k < cur.len() implies cur[k] == want[k] by {
                    if k < i {
                        assert(chapters@[k] == prev[k]);
                        assert(ids_view(prev)[k] == ids_view(self.chapters@).take(i as int)[k]);
                    }
                }
                assert(cur =~= want);
            }
            i += 1;
        }
        proof {
            assert(ids_view(chapters@) =~= ids_view(self.chapters@));
        }
        MovieGroup { fingerprint: self.fingerprint.clone(), chapters }
    }
}

impl PartialEq for MovieGroup {
    /// Groups compare by fingerprint alone, as the grouping key.
    fn eq(&self, other: &MovieGroup) -> (r: bool) {
        self.fingerprint == other.fingerprint
    }
}

impl vstd::std_specs::cmp::PartialEqSpecImpl for MovieGroup {
    open spec fn obeys_eq_spec() -> bool {
        true
    }

    open spec fn eq_spec(&self, other: &MovieGroup) -> bool {
        self@.fingerprint == other@.fingerprint
    }
}

/// The filename for this fingerprint with the given chapter text in the
/// chapter position.
pub open spec fn group_file_name(fp: FingerprintModel, chapter: Seq<char>) -> Seq<char> {
    encoding_prefix(fp.encoding) + chapter + id_canon(fp.file) + seq!['.'] + fp.extension
}

impl MovieGroup {
    /// The filename for this fingerprint with the given chapter text.
    pub fn file_name(&self, chapter: &str) -> (r: String)
        ensures
            r@ == group_file_name(self@.fingerprint, chapter@),
    {
        let mut r = String::from_str(self.fingerprint.encoding.as_str());
        r.append(chapter);
        let f = self.fingerprint.file.string();
        r.append(f.as_str());
        r.append(".");
        proof {
            reveal_strlit(".");
        }
        r.append(self.fingerprint.extension.as_str());
        proof {
            assert(r@ =~= group_file_name(self@.fingerprint, chapter@));
        }
        r
    }

    /// The merged output's name: chapter position "00".
    pub fn name(&self) -> (r: String)
        ensures
            r@ == group_file_name(self@.fingerprint, seq!['0', '0']),
    {
        let r = self.file_name("00");
        proof {
            reveal_strlit("00");
            assert("00"@ =~= seq!['0', '0']);
        }
        r
    }

    /// The source filename of one chapter of this group.
    pub fn chapter_file_name(&self, chapter: &Identifier) -> (r: String)
        ensures
            r@ == group_file_name(self@.fingerprint, id_canon(chapter@)),
    {
        let c = chapter.string();
        self.file_name(c.as_str())
    }
}

// ---------------------------------------------------------------------------
// Sorting chapters by identifier order
// ---------------------------------------------------------------------------

/// Insert `x` into `s` from the right, before every element it is below.
pub open spec fn insert_sorted_id(s: Seq<IdModel>, x: IdModel) -> Seq<IdModel>
    decreases s.len(),
{
    if s.len() == 0 {
        seq![x]
    } else if id_lt(x, s.last()) {
        insert_sorted_id(s.drop_last(), x).push(s.last())
    } else {
        s.push(x)
    }
}

/// Insertion sort of identifiers.
pub open spec fn sort_ids(s: Seq<IdModel>) -> Seq<IdModel>
    decreases s.len(),
{
    if s.len() == 0 {
        Seq::empty()
    } else {
        insert_sorted_id(sort_ids(s.drop_last()), s.last())
    }
}

/// No later element is below an earlier one.
pub open spec fn ids_sorted(s: Seq<IdModel>) -> bool {
    forall|i: int, j: int| 0 <= i < j < s.len() ==> !id_lt(#[trigger] s[j], #[trigger] s[i])
}

/// Every pair of elements is comparable.
pub open spec fn ids_comparable(s: Seq<IdModel>) -> bool {
    forall|i: int, j: int|
        0 <= i < s.len() && 0 <= j < s.len() ==> id_comparable(#[trigger] s[i], #[trigger] s[j])
}

/// Inserting contributes exactly the new element.
pub proof fn lemma_insert_sorted_id_multiset(s: Seq<IdModel>, x: IdModel)
    ensures
        insert_sorted_id(s, x).to_multiset() == s.to_multiset().insert(x),
    decreases s.len(),
{
    broadcast use group_to_multiset_ensures;

    if s.len() == 0 {
        assert(insert_sorted_id(s, x) =~= Seq::empty().push(x));
        assert(s =~= Seq::<IdModel>::empty());
        assert(Seq::<IdModel>::empty().push(x).to_multiset() == Seq::<
            IdModel,
        >::empty().to_multiset().insert(x));
    } else if id_lt(x, s.last()) {
        lemma_insert_sorted_id_multiset(s.drop_last(), x);
        assert(s =~= s.drop_last().push(s.last()));
        assert(s.to_multiset() == s.drop_last().to_multiset().insert(s.last()));
        assert(insert_sorted_id(s, x).to_multiset() == insert_sorted_id(
            s.drop_last(),
            x,
        ).to_multiset().insert(s.last()));
        assert(s.drop_last().to_multiset().insert(x).insert(s.last())
            == s.drop_last().to_multiset().insert(s.last()).insert(x));
    } else {
        assert(s.push(x).to_multiset() == s.to_multiset().insert(x));
    }
}

/// Sorting preserves the chapters as a multiset.
pub proof fn lemma_sort_ids_multiset(s: Seq<IdModel>)
    ensures
        sort_ids(s).to_multiset() == s.to_multiset(),
    decreases s.len(),
{
    broadcast use group_to_multiset_ensures;

    if s.len() > 0 {
        lemma_sort_ids_multiset(s.drop_last());
        lemma_insert_sorted_id_multiset(sort_ids(s.drop_last()), s.last());
        assert(s =~= s.drop_last().push(s.last()));
        assert(s.to_multiset() == s.drop_last().to_multiset().insert(s.last()));
    }
}

/// Membership transfers through the multiset.
proof fn lemma_multiset_contains(s: Seq<IdModel>, t: Seq<IdModel>)
    requires
        s.to_multiset() == t.to_multiset(),
    ensures
        forall|e: IdModel| s.contains(e) <==> t.contains(e),
{
    broadcast use group_to_multiset_ensures;

    assert forall|e: IdModel| s.contains(e) <==> t.contains(e) by {
        assert(s.contains(e) <==> s.to_multiset().count(e) > 0);
        assert(t.contains(e) <==> t.to_multiset().count(e) > 0);
    }
}

/// Inserting into a sorted sequence keeps it sorted, when everything in
/// sight is comparable.
pub proof fn lemma_insert_sorted_id_sorted(s: Seq<IdModel>, x: IdModel)
    requires
        ids_sorted(s),
        ids_comparable(s.push(x)),
    ensures
        ids_sorted(insert_sorted_id(s, x)),
    decreases s.len(),
{
    if s.len() == 0 {
    } else if id_lt(x, s.last()) {
        let s0 = s.drop_last();
        let last = s.last();
        assert(ids_sorted(s0)) by {
            assert(forall|i: int| 0 <= i < s0.len() ==> s0[i] == s[i]);
        };
        assert(ids_comparable(s0.push(x))) by {
            assert(forall|i: int| 0 <= i < s0.len() ==> s0.push(x)[i] == s.push(x)[i]);
            assert(s0.push(x)[s0.len() as int] == s.push(x)[s.len() as int]);
        };
        lemma_insert_sorted_id_sorted(s0, x);
        let r0 = insert_sorted_id(s0, x);
        lemma_insert_sorted_id_multiset(s0, x);
        assert(r0.to_multiset() == s0.push(x).to_multiset()) by {
            broadcast use group_to_multiset_ensures;

        };
        lemma_multiset_contains(r0, s0.push(x));
        // Every element of r0 is either x or an element of s0, and the last
        // element of s is above all of them.
        assert forall|i: int| 0 <= i < r0.len() implies !id_lt(last, r0[i]) by {
            assert(r0.contains(r0[i]));
            assert(s0.push(x).contains(r0[i]));
            let k = choose|k: int| 0 <= k < s0.push(x).len() && s0.push(x)[k] == r0[i];
            if k < s0.len() {
                // an element of s0: s is sorted, so last is not below it
                assert(s[k] == s0[k]);
                assert(!id_lt(s.last(), s[k]));
            } else {
                // it is x itself
                assert(r0[i] == x);
                assert(s.push(x)[s.len() as int] == x);
                assert(s.push(x)[s.len() - 1] == last);
                assert(id_comparable(x, last));
                lemma_identifier_order_trichotomy(x, last);
            }
        };
        assert(ids_sorted(r0.push(last))) by {
            assert(forall|i: int| 0 <= i < r0.len() ==> r0.push(last)[i] == r0[i]);
            assert(r0.push(last)[r0.len() as int] == last);
        };
        assert(insert_sorted_id(s, x) == r0.push(last));
    } else {
        // x goes at the end: show nothing in s is above x.
        let last = s.last();
        let p = s.push(x);
        assert(p[s.len() as int] == x);
        assert(p[s.len() - 1] == last);
        assert(id_comparable(x, last));
        lemma_identifier_order_trichotomy(x, last);
        assert forall|i: int| 0 <= i < s.len() implies !id_lt(x, s[i]) by {
            if id_lt(x, s[i]) {
                assert(p[i] == s[i]);
                assert(id_comparable(s[i], last));
                assert(id_comparable(x, s[i]));
                assert(!id_lt(s.last(), s[i]));
                lemma_identifier_order_trichotomy(s[i], last);
                if s[i] == last {
                    assert(id_lt(x, last));
                } else {
                    assert(id_lt(s[i], last));
                    lemma_identifier_order_transitive(x, s[i], last);
                }
            }
        };
        assert(ids_sorted(s.push(x))) by {
            assert(forall|i: int| 0 <= i < s.len() ==> s.push(x)[i] == s[i]);
            assert(s.push(x)[s.len() as int] == x);
        };
    }
}

/// Sorting sorts: on pairwise-comparable chapters the result is ordered.
pub proof fn lemma_sort_ids_sorted(s: Seq<IdModel>)
    requires
        ids_comparable(s),
    ensures
        ids_sorted(sort_ids(s)),
    decreases s.len(),
{
    if s.len() > 0 {
        let s0 = s.drop_last();
        let last = s.last();
        assert(ids_comparable(s0)) by {
            assert(forall|i: int| 0 <= i < s0.len() ==> s0[i] == s[i]);
        };
        lemma_sort_ids_sorted(s0);
        let r0 = sort_ids(s0);
        lemma_sort_ids_multiset(s0);
        lemma_multiset_contains(r0, s0);
        assert(ids_comparable(r0.push(last))) by {
            assert forall|i: int, j: int|
                0 <= i < r0.push(last).len() && 0 <= j < r0.push(last).len() implies id_comparable(
                r0.push(last)[i],
                r0.push(last)[j],
            ) by {
                let p = r0.push(last);
                assert(s.contains(p[i])) by {
                    if i < r0.len() {
                        assert(r0.contains(r0[i]));
                        assert(s0.contains(p[i]));
                        let k = choose|k: int| 0 <= k < s0.len() && s0[k] == p[i];
                        assert(s[k] == p[i]);
                    } else {
                        assert(p[i] == last);
                    }
                };
                assert(s.contains(p[j])) by {
                    if j < r0.len() {
                        assert(r0.contains(r0[j]));
                        assert(s0.contains(p[j]));
                        let k = choose|k: int| 0 <= k < s0.len() && s0[k] == p[j];
                        assert(s[k] == p[j]);
                    } else {
                        assert(p[j] == last);
                    }
                };
                let ki = choose|k: int| 0 <= k < s.len() && s[k] == p[i];
                let kj = choose|k: int| 0 <= k < s.len() && s[k] == p[j];
                assert(id_comparable(s[ki], s[kj]));
            }
        };
        lemma_insert_sorted_id_sorted(r0, last);
    }
}

/// Sort a chapter list by identifier order.
pub fn sort_identifiers(v: Vec<Identifier>) -> (r: Vec<Identifier>)
    ensures
        ids_view(r@) == sort_ids(ids_view(v@)),
{
    let mut v = v;
    let mut r: Vec<Identifier> = Vec::new();
    proof {
        assert(ids_view(r@) =~= sort_ids(ids_view(v@).take(0)));
    }
    let n = v.len();
    let mut i: usize = 0;
    while i < n
        invariant
            0 <= i <= n,
            n == v@.len(),
            ids_view(r@) == sort_ids(ids_view(v@).take(i as int)),
        decreases n - i,
    {
        let x = v[i].clone();
        proof {
            assert(ids_view(v@).take(i + 1).drop_last() =~= ids_view(v@).take(i as int));
            assert(ids_view(v@).take(i + 1).last() == v@[i as int]@);
        }
        insert_identifier_sorted(&mut r, x);
        i += 1;
    }
    proof {
        assert(ids_view(v@).take(n as int) =~= ids_view(v@));
    }
    r
}

/// Where the insertion scan stops, the spec insertion splits.
proof fn lemma_insert_sorted_id_position(s: Seq<IdModel>, x: IdModel, k: int)
    requires
        0 <= k <= s.len(),
        forall|j: int| k <= j < s.len() ==> id_lt(x, #[trigger] s[j]),
        k > 0 ==> !id_lt(x, s[k - 1]),
    ensures
        insert_sorted_id(s, x) == s.take(k) + seq![x] + s.skip(k),
    decreases s.len(),
{
    if k == s.len() {
        if s.len() == 0 {
            assert(insert_sorted_id(s, x) =~= s.take(k) + seq![x] + s.skip(k));
        } else {
            assert(!id_lt(x, s.last()));
            assert(s.push(x) =~= s.take(k) + seq![x] + s.skip(k));
        }
    } else {
        assert(id_lt(x, s.last()));
        let s0 = s.drop_last();
        assert(forall|j: int| k <= j < s0.len() ==> s0[j] == s[j]);
        assert(k > 0 ==> s0[k - 1] == s[k - 1]);
        lemma_insert_sorted_id_position(s0, x, k);
        assert((s0.take(k) + seq![x] + s0.skip(k)).push(s.last()) =~= s.take(k) + seq![x] + s.skip(
            k,
        ));
    }
}

/// Insert one identifier into an already sorted list, from the right.
fn insert_identifier_sorted(v: &mut Vec<Identifier>, x: Identifier)
    ensures
        ids_view(final(v)@) == insert_sorted_id(ids_view(old(v)@), x@),
{
    let n = v.len();
    let mut i: usize = n;
    while i > 0 && x.lt(&v[i - 1])
        invariant
            0 <= i <= n,
            n == v@.len(),
            forall|j: int| i <= j < n ==> id_lt(x@, #[trigger] ids_view(v@)[j]),
        decreases i,
    {
        i -= 1;
    }
    proof {
        lemma_insert_sorted_id_position(ids_view(v@), x@, i as int);
    }
    v.insert(i, x);
    proof {
        assert(ids_view(v@) =~= ids_view(old(v)@).take(i as int) + seq![x@] + ids_view(
            old(v)@,
        ).skip(i as int));
    }
}

// ---------------------------------------------------------------------------
// Folding movies into groups
// ---------------------------------------------------------------------------

/// Fingerprints of a group sequence.
pub open spec fn fps_of(gs: Seq<GroupModel>) -> Seq<FingerprintModel> {
    gs.map_values(|g: GroupModel| g.fingerprint)
}

/// The distinct fingerprints of a movie sequence, in first-seen order.
pub open spec fn distinct_fps(movies: Seq<MovieModel>) -> Seq<FingerprintModel>
    decreases movies.len(),
{
    if movies.len() == 0 {
        Seq::empty()
    } else {
        let rest = distinct_fps(movies.drop_last());
        if rest.contains(movies.last().fingerprint) {
            rest
        } else {
            rest.push(movies.last().fingerprint)
        }
    }
}

/// The chapters of every movie with this fingerprint, in input order.
pub open spec fn group_chapters(movies: Seq<MovieModel>, fp: FingerprintModel) -> Seq<IdModel>
    decreases movies.len(),
{
    if movies.len() == 0 {
        Seq::empty()
    } else {
        let rest = group_chapters(movies.drop_last(), fp);
        if movies.last().fingerprint == fp {
            rest.push(movies.last().chapter)
        } else {
            rest
        }
    }
}

/// A fingerprint is collected exactly when some movie carries it.
pub proof fn lemma_distinct_fps_complete(movies: Seq<MovieModel>, fp: FingerprintModel)
    ensures
        distinct_fps(movies).contains(fp) <==> exists|k: int|
            0 <= k < movies.len() && movies[k].fingerprint == fp,
    decreases movies.len(),
{
    if movies.len() > 0 {
        let m0 = movies.drop_last();
        let lastfp = movies.last().fingerprint;
        let rest = distinct_fps(m0);
        lemma_distinct_fps_complete(m0, fp);
        assert(forall|k: int| 0 <= k < m0.len() ==> #[trigger] m0[k] == movies[k]);
        if distinct_fps(movies).contains(fp) {
            let idx = choose|idx: int|
                0 <= idx < distinct_fps(movies).len() && distinct_fps(movies)[idx] == fp;
            if rest.contains(lastfp) {
                assert(rest[idx] == fp);
                assert(rest.contains(fp));
                let k = choose|k: int| 0 <= k < m0.len() && m0[k].fingerprint == fp;
                assert(movies[k].fingerprint == fp);
            } else {
                if idx < rest.len() {
                    assert(rest[idx] == fp);
                    assert(rest.contains(fp));
                    let k = choose|k: int| 0 <= k < m0.len() && m0[k].fingerprint == fp;
                    assert(movies[k].fingerprint == fp);
                } else {
                    assert(fp == lastfp);
                    assert(movies[movies.len() - 1].fingerprint == fp);
                }
            }
        }
        if exists|k: int| 0 <= k < movies.len() && movies[k].fingerprint == fp {
            let k = choose|k: int| 0 <= k < movies.len() && movies[k].fingerprint == fp;
            if k < movies.len() - 1 {
                assert(m0[k].fingerprint == fp);
                assert(rest.contains(fp));
                let idx = choose|idx: int| 0 <= idx < rest.len() && rest[idx] == fp;
                if rest.contains(lastfp) {
                    assert(distinct_fps(movies)[idx] == fp);
                } else {
                    assert(rest.push(lastfp)[idx] == fp);
                }
                assert(distinct_fps(movies).contains(fp));
            } else {
                assert(fp == lastfp);
                if rest.contains(lastfp) {
                    assert(distinct_fps(movies).contains(fp));
                } else {
                    assert(rest.push(lastfp)[rest.len() as int] == fp);
                    assert(distinct_fps(movies).contains(fp));
                }
            }
        }
    }
}

/// No movie with this fingerprint means no chapters for it.
pub proof fn lemma_group_chapters_absent(movies: Seq<MovieModel>, fp: FingerprintModel)
    requires
        forall|k: int| 0 <= k < movies.len() ==> (#[trigger] movies[k]).fingerprint != fp,
    ensures
        group_chapters(movies, fp) == Seq::<IdModel>::empty(),
    decreases movies.len(),
{
    if movies.len() > 0 {
        assert(forall|k: int|
            0 <= k < movies.len() - 1 ==> movies.drop_last()[k] == movies[k]);
        lemma_group_chapters_absent(movies.drop_last(), fp);
    }
}

/// Find the group that already carries this fingerprint.
fn find_group(acc: &Vec<MovieGroup>, fp: &Fingerprint) -> (r: Option<usize>)
    ensures
        match r {
            Some(g) => g < acc@.len() && acc@[g as int]@.fingerprint == fp@,
            None => forall|g: int| 0 <= g < acc@.len() ==> (#[trigger] acc@[g])@.fingerprint != fp@,
        },
{
    let n = acc.len();
    let mut g: usize = 0;
    while g < n
        invariant
            0 <= g <= n,
            n == acc@.len(),
            forall|k: int| 0 <= k < g ==> (#[trigger] acc@[k])@.fingerprint != fp@,
        decreases n - g,
    {
        if acc[g].fingerprint == *fp {
            return Some(g);
        }
        g += 1;
    }
    None
}

/// Groups keyed by fingerprint, chapters sorted, in first-seen key order.
pub open spec fn grouped(movies: Seq<MovieModel>) -> Seq<GroupModel> {
    Seq::new(
        distinct_fps(movies).len(),
        |i: int|
            GroupModel {
                fingerprint: distinct_fps(movies)[i],
                chapters: sort_ids(group_chapters(movies, distinct_fps(movies)[i])),
            },
    )
}

/// Fold movies into fingerprint-keyed groups and sort each group's
/// chapters; groups appear in first-seen fingerprint order.
pub fn fold_movies(movies: Vec<Movie>) -> (r: Vec<MovieGroup>)
    ensures
        groups_view(r@) == grouped(movies_view(movies@)),
{
    let ghost msv = movies_view(movies@);
    let mut acc: Vec<MovieGroup> = Vec::new();
    let n = movies.len();
    let mut i: usize = 0;
    proof {
        assert(msv.take(0) =~= Seq::<MovieModel>::empty());
        assert(fps_of(groups_view(acc@)) =~= distinct_fps(msv.take(0)));
    }
    while i < n
        invariant
            0 <= i <= n,
            n == movies@.len(),
            msv == movies_view(movies@),
            fps_of(groups_view(acc@)) == distinct_fps(msv.take(i as int)),
            forall|g: int|
                0 <= g < acc@.len() ==> (#[trigger] acc@[g])@.chapters == group_chapters(
                    msv.take(i as int),
                    acc@[g]@.fingerprint,
                ),
            forall|g1: int, g2: int|
                0 <= g1 < g2 < acc@.len() ==> (#[trigger] acc@[g1])@.fingerprint != (
                #[trigger] acc@[g2])@.fingerprint,
        decreases n - i,
    {
        let m = &movies[i];
        proof {
            assert(msv.take(i + 1).drop_last() =~= msv.take(i as int));
            assert(msv.take(i + 1).last() == msv[i as int]);
            assert(msv[i as int] == m@);
        }
        let ghost pre = acc@;
        match find_group(&acc, &m.fingerprint) {
            Some(gi) => {
                let mut grp = acc.remove(gi);
                grp.chapters.push(m.chapter.clone());
                acc.insert(gi, grp);
                proof {
                    assert(acc@ =~= pre.update(gi as int, acc@[gi as int]));
                    let cur = groups_view(acc@);
                    let prev = groups_view(pre);
                    assert(acc@[gi as int]@.fingerprint == pre[gi as int]@.fingerprint);
                    assert(acc@[gi as int]@.chapters =~= pre[gi as int]@.chapters.push(
                        m@.chapter,
                    ));
                    assert(fps_of(cur) =~= fps_of(prev));
                    // the new fingerprint was already collected
                    assert(distinct_fps(msv.take(i as int)).contains(m@.fingerprint)) by {
                        assert(fps_of(prev)[gi as int] == m@.fingerprint);
                    };
                    assert(distinct_fps(msv.take(i + 1)) == distinct_fps(msv.take(i as int)));
                    assert forall|g: int| 0 <= g < acc@.len() implies (#[trigger] acc@[g])@.chapters
                        == group_chapters(msv.take(i + 1), acc@[g]@.fingerprint) by {
                        if g == gi {
                            assert(acc@[g]@.fingerprint == m@.fingerprint);
                            assert(group_chapters(msv.take(i + 1), m@.fingerprint)
                                == group_chapters(msv.take(i as int), m@.fingerprint).push(
                                m@.chapter,
                            ));
                        } else {
                            assert(acc@[g] == pre[g]);
                            assert(pre[g]@.fingerprint != pre[gi as int]@.fingerprint) by {
                                if g < gi {
                                    assert(pre[g]@.fingerprint != pre[gi as int]@.fingerprint);
                                }
                            };
                            assert(acc@[g]@.fingerprint != m@.fingerprint);
                            assert(group_chapters(msv.take(i + 1), acc@[g]@.fingerprint)
                                == group_chapters(msv.take(i as int), acc@[g]@.fingerprint));
                        }
                    }
                }
            },
            None => {
                let mut ch: Vec<Identifier> = Vec::new();
                ch.push(m.chapter.clone());
                let fp2 = m.fingerprint.clone();
                acc.push(MovieGroup { fingerprint: fp2, chapters: ch });
                proof {
                    let cur = groups_view(acc@);
                    let prev = groups_view(pre);
                    assert(acc@.len() == pre.len() + 1);
                    assert(acc@[pre.len() as int]@.fingerprint == m@.fingerprint);
                    assert(acc@[pre.len() as int]@.chapters =~= Seq::<IdModel>::empty().push(
                        m@.chapter,
                    ));
                    assert(!distinct_fps(msv.take(i as int)).contains(m@.fingerprint)) by {
                        if distinct_fps(msv.take(i as int)).contains(m@.fingerprint) {
                            let k = choose|k: int|
                                0 <= k < fps_of(prev).len() && fps_of(prev)[k] == m@.fingerprint;
                            assert(pre[k]@.fingerprint == m@.fingerprint);
                        }
                    };
                    assert(distinct_fps(msv.take(i + 1)) == distinct_fps(msv.take(i as int)).push(
                        m@.fingerprint,
                    ));
                    assert(fps_of(cur) =~= distinct_fps(msv.take(i + 1)));
                    assert(forall|k: int|
                        0 <= k < msv.take(i as int).len() ==> (#[trigger] msv.take(
                            i as int,
                        )[k]).fingerprint != m@.fingerprint) by {
                        lemma_distinct_fps_complete(msv.take(i as int), m@.fingerprint);
                    };
                    lemma_group_chapters_absent(msv.take(i as int), m@.fingerprint);
                    assert forall|g: int| 0 <= g < acc@.len() implies (#[trigger] acc@[g])@.chapters
                        == group_chapters(msv.take(i + 1), acc@[g]@.fingerprint) by {
                        if g == pre.len() {
                            assert(group_chapters(msv.take(i + 1), m@.fingerprint)
                                == group_chapters(msv.take(i as int), m@.fingerprint).push(
                                m@.chapter,
                            ));
                            assert(acc@[g]@.chapters =~= group_chapters(
                                msv.take(i + 1),
                                m@.fingerprint,
                            ));
                        } else {
                            assert(acc@[g] == pre[g]);
                            assert(acc@[g]@.fingerprint != m@.fingerprint) by {
                                assert(fps_of(prev)[g] == acc@[g]@.fingerprint);
                            };
                            assert(group_chapters(msv.take(i + 1), acc@[g]@.fingerprint)
                                == group_chapters(msv.take(i as int), acc@[g]@.fingerprint));
                        }
                    }
                }
            },
        }
        i += 1;
    }
    proof {
        assert(msv.take(n as int) =~= msv);
    }
    // sort each group's chapters
    let mut acc = acc;
    let mut out: Vec<MovieGroup> = Vec::new();
    let ghost folded = groups_view(acc@);
    proof {
        assert(groups_view(acc@) == folded.skip(0));
    }
    while acc.len() > 0
        invariant
            out@.len() + acc@.len() == folded.len(),
            groups_view(acc@) == folded.skip(out@.len() as int),
            forall|g: int|
                0 <= g < out@.len() ==> (#[trigger] out@[g])@.fingerprint == folded[g].fingerprint
                    && out@[g]@.chapters == sort_ids(folded[g].chapters),
        decreases acc@.len(),
    {
        let ghost k = out@.len() as int;
        let ghost oldacc = acc@;
        let grp = acc.remove(0);
        proof {
            assert(grp == oldacc[0]);
            assert(groups_view(oldacc)[0] == grp@);
            assert(folded.skip(k)[0] == folded[k]);
            assert(grp@ == folded[k]);
            assert(acc@ =~= oldacc.skip(1));
            assert forall|j: int| 0 <= j < acc@.len() implies groups_view(acc@)[j] == folded.skip(
                k + 1,
            )[j] by {
                assert(acc@[j] == oldacc[j + 1]);
                assert(groups_view(oldacc)[j + 1] == folded.skip(k)[j + 1]);
            }
            assert(groups_view(acc@) =~= folded.skip(k + 1));
        }
        let sorted = sort_identifiers(grp.chapters);
        out.push(MovieGroup { fingerprint: grp.fingerprint, chapters: sorted });
    }
    proof {
        let ms = movies_view(movies@);
        assert(fps_of(folded) == distinct_fps(ms));
        assert(groups_view(out@) =~= grouped(ms)) by {
            assert(groups_view(out@).len() == grouped(ms).len());
            assert forall|g: int| 0 <= g < folded.len() implies groups_view(out@)[g] == grouped(
                ms,
            )[g] by {
                assert(fps_of(folded)[g] == folded[g].fingerprint);
                assert(folded[g].chapters == group_chapters(ms, folded[g].fingerprint));
            }
        };
    }
    out
}

// ---------------------------------------------------------------------------
// Ordering groups by fingerprint
// ---------------------------------------------------------------------------

/// Rank of an encoding in fingerprint order.
pub open spec fn enc_rank(e: Encoding) -> int {
    match e {
        Encoding::Avc => 0,
        Encoding::Hevc => 1,
    }
}

/// Fingerprint order: by encoding, then file identifier, then extension.
pub open spec fn fp_lt(a: FingerprintModel, b: FingerprintModel) -> bool {
    enc_rank(a.encoding) < enc_rank(b.encoding) || (a.encoding == b.encoding && (id_lt(
        a.file,
        b.file,
    ) || (a.file == b.file && seq_lt(a.extension, b.extension))))
}

/// Fingerprints whose file identifiers are comparable.
pub open spec fn fp_comparable(a: FingerprintModel, b: FingerprintModel) -> bool {
    id_comparable(a.file, b.file)
}

/// Fingerprint order is a strict total order on comparable fingerprints.
pub proof fn lemma_fp_trichotomy(a: FingerprintModel, b: FingerprintModel)
    requires
        fp_comparable(a, b),
    ensures
        fp_lt(a, b) || fp_lt(b, a) || a == b,
        !(fp_lt(a, b) && fp_lt(b, a)),
        fp_lt(a, b) ==> a != b,
{
    lemma_identifier_order_trichotomy(a.file, b.file);
    crate::text::lemma_seq_lt_trichotomy(a.extension, b.extension);
}

/// Fingerprint order is transitive on comparable fingerprints.
pub proof fn lemma_fp_transitive(a: FingerprintModel, b: FingerprintModel, c: FingerprintModel)
    requires
        fp_comparable(a, b),
        fp_comparable(b, c),
        fp_comparable(a, c),
        fp_lt(a, b),
        fp_lt(b, c),
    ensures
        fp_lt(a, c),
{
    lemma_fp_trichotomy(a, b);
    lemma_fp_trichotomy(b, c);
    lemma_fp_trichotomy(a, c);
    if id_lt(a.file, b.file) && id_lt(b.file, c.file) {
        lemma_identifier_order_transitive(a.file, b.file, c.file);
    }
    if seq_lt(a.extension, b.extension) && seq_lt(b.extension, c.extension) {
        crate::text::lemma_seq_lt_transitive(a.extension, b.extension, c.extension);
    }
}

/// Group order is the order of the fingerprints.
pub open spec fn group_lt(a: GroupModel, b: GroupModel) -> bool {
    fp_lt(a.fingerprint, b.fingerprint)
}

/// Insert `x` into `s` from the right, before every group it is below.
pub open spec fn insert_sorted_group(s: Seq<GroupModel>, x: GroupModel) -> Seq<GroupModel>
    decreases s.len(),
{
    if s.len() == 0 {
        seq![x]
    } else if group_lt(x, s.last()) {
        insert_sorted_group(s.drop_last(), x).push(s.last())
    } else {
        s.push(x)
    }
}

/// Insertion sort of groups by fingerprint.
pub open spec fn sort_groups(s: Seq<GroupModel>) -> Seq<GroupModel>
    decreases s.len(),
{
    if s.len() == 0 {
        Seq::empty()
    } else {
        insert_sorted_group(sort_groups(s.drop_last()), s.last())
    }
}

/// No later group is below an earlier one.
pub open spec fn groups_sorted(s: Seq<GroupModel>) -> bool {
    forall|i: int, j: int| 0 <= i < j < s.len() ==> !group_lt(#[trigger] s[j], #[trigger] s[i])
}

/// Every pair of fingerprints is comparable.
pub open spec fn groups_comparable(s: Seq<GroupModel>) -> bool {
    forall|i: int, j: int|
        0 <= i < s.len() && 0 <= j < s.len() ==> fp_comparable(
            (#[trigger] s[i]).fingerprint,
            (#[trigger] s[j]).fingerprint,
        )
}

/// Inserting contributes exactly the new group.
pub proof fn lemma_insert_sorted_group_multiset(s: Seq<GroupModel>, x: GroupModel)
    ensures
        insert_sorted_group(s, x).to_multiset() == s.to_multiset().insert(x),
    decreases s.len(),
{
    broadcast use group_to_multiset_ensures;

    if s.len() == 0 {
        assert(insert_sorted_group(s, x) =~= Seq::empty().push(x));
        assert(s =~= Seq::<GroupModel>::empty());
        assert(Seq::<GroupModel>::empty().push(x).to_multiset() == Seq::<
            GroupModel,
        >::empty().to_multiset().insert(x));
    } else if group_lt(x, s.last()) {
        lemma_insert_sorted_group_multiset(s.drop_last(), x);
        assert(s =~= s.drop_last().push(s.last()));
        assert(s.to_multiset() == s.drop_last().to_multiset().insert(s.last()));
        assert(insert_sorted_group(s, x).to_multiset() == insert_sorted_group(
            s.drop_last(),
            x,
        ).to_multiset().insert(s.last()));
        assert(s.drop_last().to_multiset().insert(x).insert(s.last())
            == s.drop_last().to_multiset().insert(s.last()).insert(x));
    } else {
        assert(s.push(x).to_multiset() == s.to_multiset().insert(x));
    }
}

/// Sorting preserves the groups as a multiset.
pub proof fn lemma_sort_groups_multiset(s: Seq<GroupModel>)
    ensures
        sort_groups(s).to_multiset() == s.to_multiset(),
    decreases s.len(),
{
    broadcast use group_to_multiset_ensures;

    if s.len() > 0 {
        lemma_sort_groups_multiset(s.drop_last());
        lemma_insert_sorted_group_multiset(sort_groups(s.drop_last()), s.last());
        assert(s =~= s.drop_last().push(s.last()));
        assert(s.to_multiset() == s.drop_last().to_multiset().insert(s.last()));
    }
}

/// Membership transfers through the multiset.
proof fn lemma_multiset_contains_group(s: Seq<GroupModel>, t: Seq<GroupModel>)
    requires
        s.to_multiset() == t.to_multiset(),
    ensures
        forall|e: GroupModel| s.contains(e) <==> t.contains(e),
{
    broadcast use group_to_multiset_ensures;

    assert forall|e: GroupModel| s.contains(e) <==> t.contains(e) by {
        assert(s.contains(e) <==> s.to_multiset().count(e) > 0);
        assert(t.contains(e) <==> t.to_multiset().count(e) > 0);
    }
}

/// Inserting into a sorted group list keeps it sorted.
pub proof fn lemma_insert_sorted_group_sorted(s: Seq<GroupModel>, x: GroupModel)
    requires
        groups_sorted(s),
        groups_comparable(s.push(x)),
    ensures
        groups_sorted(insert_sorted_group(s, x)),
    decreases s.len(),
{
    if s.len() == 0 {
    } else if group_lt(x, s.last()) {
        let s0 = s.drop_last();
        let last = s.last();
        assert(groups_sorted(s0)) by {
            assert(forall|i: int| 0 <= i < s0.len() ==> s0[i] == s[i]);
        };
        assert(groups_comparable(s0.push(x))) by {
            assert(forall|i: int| 0 <= i < s0.len() ==> s0.push(x)[i] == s.push(x)[i]);
            assert(s0.push(x)[s0.len() as int] == s.push(x)[s.len() as int]);
        };
        lemma_insert_sorted_group_sorted(s0, x);
        let r0 = insert_sorted_group(s0, x);
        lemma_insert_sorted_group_multiset(s0, x);
        assert(r0.to_multiset() == s0.push(x).to_multiset()) by {
            broadcast use group_to_multiset_ensures;

        };
        lemma_multiset_contains_group(r0, s0.push(x));
        assert forall|i: int| 0 <= i < r0.len() implies !group_lt(last, r0[i]) by {
            assert(r0.contains(r0[i]));
            assert(s0.push(x).contains(r0[i]));
            let k = choose|k: int| 0 <= k < s0.push(x).len() && s0.push(x)[k] == r0[i];
            if k < s0.len() {
                assert(s[k] == s0[k]);
                assert(!group_lt(s.last(), s[k]));
            } else {
                assert(r0[i] == x);
                assert(s.push(x)[s.len() as int] == x);
                assert(s.push(x)[s.len() - 1] == last);
                assert(fp_comparable(x.fingerprint, last.fingerprint));
                lemma_fp_trichotomy(x.fingerprint, last.fingerprint);
            }
        };
        assert(groups_sorted(r0.push(last))) by {
            assert(forall|i: int| 0 <= i < r0.len() ==> r0.push(last)[i] == r0[i]);
            assert(r0.push(last)[r0.len() as int] == last);
        };
        assert(insert_sorted_group(s, x) == r0.push(last));
    } else {
        let last = s.last();
        let p = s.push(x);
        assert(p[s.len() as int] == x);
        assert(p[s.len() - 1] == last);
        assert(fp_comparable(x.fingerprint, last.fingerprint));
        lemma_fp_trichotomy(x.fingerprint, last.fingerprint);
        assert forall|i: int| 0 <= i < s.len() implies !group_lt(x, s[i]) by {
            if group_lt(x, s[i]) {
                assert(p[i] == s[i]);
                assert(fp_comparable(s[i].fingerprint, last.fingerprint));
                assert(fp_comparable(x.fingerprint, s[i].fingerprint));
                assert(!group_lt(s.last(), s[i]));
                lemma_fp_trichotomy(s[i].fingerprint, last.fingerprint);
                if s[i].fingerprint == last.fingerprint {
                    assert(group_lt(x, last));
                } else {
                    assert(fp_lt(s[i].fingerprint, last.fingerprint));
                    lemma_fp_transitive(x.fingerprint, s[i].fingerprint, last.fingerprint);
                }
            }
        };
        assert(groups_sorted(s.push(x))) by {
            assert(forall|i: int| 0 <= i < s.len() ==> s.push(x)[i] == s[i]);
            assert(s.push(x)[s.len() as int] == x);
        };
    }
}

/// Sorting sorts: on comparable fingerprints the group list is ordered.
pub proof fn lemma_sort_groups_sorted(s: Seq<GroupModel>)
    requires
        groups_comparable(s),
    ensures
        groups_sorted(sort_groups(s)),
    decreases s.len(),
{
    if s.len() > 0 {
        let s0 = s.drop_last();
        let last = s.last();
        assert(groups_comparable(s0)) by {
            assert(forall|i: int| 0 <= i < s0.len() ==> s0[i] == s[i]);
        };
        lemma_sort_groups_sorted(s0);
        let r0 = sort_groups(s0);
        lemma_sort_groups_multiset(s0);
        lemma_multiset_contains_group(r0, s0);
        assert(groups_comparable(r0.push(last))) by {
            assert forall|i: int, j: int|
                0 <= i < r0.push(last).len() && 0 <= j < r0.push(last).len() implies fp_comparable(
                r0.push(last)[i].fingerprint,
                r0.push(last)[j].fingerprint,
            ) by {
                let p = r0.push(last);
                assert(s.contains(p[i])) by {
                    if i < r0.len() {
                        assert(r0.contains(r0[i]));
                        assert(s0.contains(p[i]));
                        let k = choose|k: int| 0 <= k < s0.len() && s0[k] == p[i];
                        assert(s[k] == p[i]);
                    } else {
                        assert(p[i] == last);
                    }
                };
                assert(s.contains(p[j])) by {
                    if j < r0.len() {
                        assert(r0.contains(r0[j]));
                        assert(s0.contains(p[j]));
                        let k = choose|k: int| 0 <= k < s0.len() && s0[k] == p[j];
                        assert(s[k] == p[j]);
                    } else {
                        assert(p[j] == last);
                    }
                };
                let ki = choose|k: int| 0 <= k < s.len() && s[k] == p[i];
                let kj = choose|k: int| 0 <= k < s.len() && s[k] == p[j];
                assert(fp_comparable(s[ki].fingerprint, s[kj].fingerprint));
            }
        };
        lemma_insert_sorted_group_sorted(r0, last);
    }
}

/// Where the insertion scan stops, the spec insertion splits.
proof fn lemma_insert_sorted_group_position(s: Seq<GroupModel>, x: GroupModel, k: int)
    requires
        0 <= k <= s.len(),
        forall|j: int| k <= j < s.len() ==> group_lt(x, #[trigger] s[j]),
        k > 0 ==> !group_lt(x, s[k - 1]),
    ensures
        insert_sorted_group(s, x) == s.take(k) + seq![x] + s.skip(k),
    decreases s.len(),
{
    if k == s.len() {
        if s.len() == 0 {
            assert(insert_sorted_group(s, x) =~= s.take(k) + seq![x] + s.skip(k));
        } else {
            assert(!group_lt(x, s.last()));
            assert(s.push(x) =~= s.take(k) + seq![x] + s.skip(k));
        }
    } else {
        assert(group_lt(x, s.last()));
        let s0 = s.drop_last();
        assert(forall|j: int| k <= j < s0.len() ==> s0[j] == s[j]);
        assert(k > 0 ==> s0[k - 1] == s[k - 1]);
        lemma_insert_sorted_group_position(s0, x, k);
        assert((s0.take(k) + seq![x] + s0.skip(k)).push(s.last()) =~= s.take(k) + seq![x]
            + s.skip(k));
    }
}

/// Compare two groups by fingerprint.
fn group_before(a: &MovieGroup, b: &MovieGroup) -> (r: bool)
    ensures
        r == group_lt(a@, b@),
{
    let ra: u8 = match a.fingerprint.encoding {
        Encoding::Avc => 0,
        Encoding::Hevc => 1,
    };
    let rb: u8 = match b.fingerprint.encoding {
        Encoding::Avc => 0,
        Encoding::Hevc => 1,
    };
    if ra < rb {
        true
    } else if ra > rb {
        false
    } else if a.fingerprint.file.lt(&b.fingerprint.file) {
        true
    } else if a.fingerprint.file == b.fingerprint.file {
        crate::text::str_lt(a.fingerprint.extension.as_str(), b.fingerprint.extension.as_str())
    } else {
        false
    }
}

/// Insert one group into an already sorted list, from the right.
fn insert_group_sorted(v: &mut Vec<MovieGroup>, x: MovieGroup)
    ensures
        groups_view(final(v)@) == insert_sorted_group(groups_view(old(v)@), x@),
{
    let n = v.len();
    let mut i: usize = n;
    while i > 0 && group_before(&x, &v[i - 1])
        invariant
            0 <= i <= n,
            n == v@.len(),
            forall|j: int| i <= j < n ==> group_lt(x@, #[trigger] groups_view(v@)[j]),
        decreases i,
    {
        i -= 1;
    }
    proof {
        lemma_insert_sorted_group_position(groups_view(v@), x@, i as int);
    }
    v.insert(i, x);
    proof {
        assert(groups_view(v@) =~= groups_view(old(v)@).take(i as int) + seq![x@] + groups_view(
            old(v)@,
        ).skip(i as int));
    }
}

/// Sort groups by fingerprint.
pub fn sort_movie_groups(v: Vec<MovieGroup>) -> (r: Vec<MovieGroup>)
    ensures
        groups_view(r@) == sort_groups(groups_view(v@)),
{
    let mut v = v;
    let mut r: Vec<MovieGroup> = Vec::new();
    proof {
        assert(groups_view(r@) =~= sort_groups(groups_view(v@).take(0)));
    }
    let n = v.len();
    let mut i: usize = 0;
    while i < n
        invariant
            0 <= i <= n,
            n == v@.len(),
            groups_view(r@) == sort_groups(groups_view(v@).take(i as int)),
        decreases n - i,
    {
        let x = v[i].clone();
        proof {
            assert(groups_view(v@).take(i + 1).drop_last() =~= groups_view(v@).take(i as int));
            assert(groups_view(v@).take(i + 1).last() == v@[i as int]@);
        }
        insert_group_sorted(&mut r, x);
        i += 1;
    }
    proof {
        assert(groups_view(v@).take(n as int) =~= groups_view(v@));
    }
    r
}

// ---------------------------------------------------------------------------
// Collecting and grouping filenames
// ---------------------------------------------------------------------------

/// The movies parsed from a name list; names the grammar rejects are
/// discarded.
pub open spec fn collect_spec(names: Seq<Seq<char>>) -> Seq<MovieModel>
    decreases names.len(),
{
    if names.len() == 0 {
        Seq::empty()
    } else {
        let rest = collect_spec(names.drop_last());
        if movie_valid(names.last()) {
            rest.push(movie_of(names.last()))
        } else {
            rest
        }
    }
}

/// Parse each filename, discarding the ones the grammar rejects.
pub fn collect_movies(file_names: &Vec<String>) -> (r: Vec<Movie>)
    ensures
        movies_view(r@) == collect_spec(names_view(file_names@)),
{
    let mut r: Vec<Movie> = Vec::new();
    let n = file_names.len();
    let mut i: usize = 0;
    proof {
        assert(movies_view(r@) =~= collect_spec(names_view(file_names@).take(0)));
    }
    while i < n
        invariant
            0 <= i <= n,
            n == file_names@.len(),
            movies_view(r@) == collect_spec(names_view(file_names@).take(i as int)),
        decreases n - i,
    {
        let ghost prev = r@;
        proof {
            assert(names_view(file_names@).take(i + 1).drop_last() =~= names_view(
                file_names@,
            ).take(i as int));
            assert(names_view(file_names@).take(i + 1).last() == file_names@[i as int]@);
        }
        match Movie::try_from(file_names[i].as_str()) {
            Ok(m) => {
                r.push(m);
                proof {
                    assert(movies_view(r@) =~= movies_view(prev).push(movie_of(
                        file_names@[i as int]@,
                    )));
                }
            },
            Err(_) => {},
        }
        i += 1;
    }
    proof {
        assert(names_view(file_names@).take(n as int) =~= names_view(file_names@));
    }
    r
}

/// The groups a run works on: parsed movies folded by fingerprint, chapters
/// sorted within each group, groups sorted by fingerprint.
pub open spec fn spec_group_movies(movies: Seq<MovieModel>) -> Seq<GroupModel> {
    sort_groups(grouped(movies))
}

/// Group a directory's filenames into merge work, one group per recording.
pub fn group_movies(file_names: &Vec<String>) -> (r: Vec<MovieGroup>)
    ensures
        groups_view(r@) == spec_group_movies(collect_spec(names_view(file_names@))),
{
    let movies = collect_movies(file_names);
    let folded = fold_movies(movies);
    sort_movie_groups(folded)
}

/// Chapters collected for a fingerprint are chapters of the input movies.
proof fn lemma_group_chapters_elements(movies: Seq<MovieModel>, fp: FingerprintModel)
    ensures
        forall|e: IdModel|
            #[trigger] group_chapters(movies, fp).contains(e) ==> exists|k: int|
                0 <= k < movies.len() && movies[k].chapter == e,
    decreases movies.len(),
{
    if movies.len() > 0 {
        let m0 = movies.drop_last();
        lemma_group_chapters_elements(m0, fp);
        assert(forall|k: int| 0 <= k < m0.len() ==> #[trigger] m0[k] == movies[k]);
        assert forall|e: IdModel| #[trigger] group_chapters(movies, fp).contains(e) implies exists|
            k: int,
        | 0 <= k < movies.len() && movies[k].chapter == e by {
            let g = group_chapters(movies, fp);
            let g0 = group_chapters(m0, fp);
            let i = choose|i: int| 0 <= i < g.len() && g[i] == e;
            if movies.last().fingerprint == fp {
                if i < g0.len() {
                    assert(g0.contains(e));
                    let k = choose|k: int| 0 <= k < m0.len() && m0[k].chapter == e;
                    assert(movies[k].chapter == e);
                } else {
                    assert(e == movies.last().chapter);
                    assert(movies[movies.len() - 1].chapter == e);
                }
            } else {
                assert(g0.contains(e));
                let k = choose|k: int| 0 <= k < m0.len() && m0[k].chapter == e;
                assert(movies[k].chapter == e);
            }
        }
    }
}

/// The groups a run works on are sorted by fingerprint whenever the file
/// identifiers are written canonically (as the filename grammar produces
/// them from plain digit codes).
pub proof fn lemma_group_movies_groups_sorted(movies: Seq<MovieModel>)
    requires
        forall|k: int|
            0 <= k < movies.len() ==> crate::identifier::id_canonical(
                (#[trigger] movies[k]).fingerprint.file,
            ) && movies[k].fingerprint.file.kind is File,
    ensures
        groups_sorted(spec_group_movies(movies)),
{
    let gs = grouped(movies);
    assert forall|i: int, j: int|
        0 <= i < gs.len() && 0 <= j < gs.len() implies fp_comparable(
        (#[trigger] gs[i]).fingerprint,
        (#[trigger] gs[j]).fingerprint,
    ) by {
        lemma_distinct_fps_complete(movies, gs[i].fingerprint);
        lemma_distinct_fps_complete(movies, gs[j].fingerprint);
        assert(distinct_fps(movies).contains(gs[i].fingerprint)) by {
            assert(distinct_fps(movies)[i] == gs[i].fingerprint);
        };
        assert(distinct_fps(movies).contains(gs[j].fingerprint)) by {
            assert(distinct_fps(movies)[j] == gs[j].fingerprint);
        };
    };
    lemma_sort_groups_sorted(gs);
}

/// Every group a run works on carries its chapters in ascending identifier
/// order, whenever the chapter codes are written canonically (as the
/// filename grammar produces them from plain digit or alphabetic codes).
pub proof fn lemma_group_movies_chapters_sorted(movies: Seq<MovieModel>)
    requires
        forall|k: int|
            0 <= k < movies.len() ==> crate::identifier::id_canonical(
                (#[trigger] movies[k]).chapter,
            ) && !(movies[k].chapter.kind is File),
    ensures
        forall|gi: int|
            0 <= gi < spec_group_movies(movies).len() ==> ids_sorted(
                (#[trigger] spec_group_movies(movies)[gi]).chapters,
            ),
{
    let gs = grouped(movies);
    assert forall|gi: int| 0 <= gi < gs.len() implies ids_sorted((#[trigger] gs[gi]).chapters) by {
        let raw = group_chapters(movies, distinct_fps(movies)[gi]);
        lemma_group_chapters_elements(movies, distinct_fps(movies)[gi]);
        assert forall|i: int, j: int|
            0 <= i < raw.len() && 0 <= j < raw.len() implies id_comparable(
            #[trigger] raw[i],
            #[trigger] raw[j],
        ) by {
            assert(raw.contains(raw[i]));
            assert(raw.contains(raw[j]));
            let ki = choose|k: int| 0 <= k < movies.len() && movies[k].chapter == raw[i];
            let kj = choose|k: int| 0 <= k < movies.len() && movies[k].chapter == raw[j];
            assert(crate::identifier::id_wf(movies[ki].chapter));
            assert(crate::identifier::id_wf(movies[kj].chapter));
        };
        lemma_sort_ids_sorted(raw);
        assert(gs[gi].chapters == sort_ids(raw));
    };
    // sorting the groups only rearranges them, so every group of the final
    // list is one of the grouped ones
    lemma_sort_groups_multiset(gs);
    lemma_multiset_contains_group(sort_groups(gs), gs);
    assert forall|gi: int| 0 <= gi < spec_group_movies(movies).len() implies ids_sorted(
        (#[trigger] spec_group_movies(movies)[gi]).chapters,
    ) by {
        let sg = spec_group_movies(movies);
        assert(sg.contains(sg[gi]));
        assert(gs.contains(sg[gi]));
        let k = choose|k: int| 0 <= k < gs.len() && gs[k] == sg[gi];
        assert(ids_sorted(gs[k].chapters));
    };
}

/// Every movie the grammar accepts carries well-formed identifiers: a
/// four-character file code and a two-character chapter code.
pub proof fn lemma_collected_movies_wf(names: Seq<Seq<char>>)
    ensures
        forall|k: int|
            0 <= k < collect_spec(names).len() ==> {
                let m = #[trigger] collect_spec(names)[k];
                &&& crate::identifier::id_wf(m.fingerprint.file)
                &&& m.fingerprint.file.kind is File
                &&& crate::identifier::id_wf(m.chapter)
                &&& !(m.chapter.kind is File)
            },
    decreases names.len(),
{
    if names.len() > 0 {
        lemma_collected_movies_wf(names.drop_last());
        let rest = collect_spec(names.drop_last());
        if movie_valid(names.last()) {
            let m = movie_of(names.last());
            assert(crate::movie::file_code(crate::movie::stem_of(names.last())).len() == 4);
            assert(crate::movie::chapter_code(crate::movie::stem_of(names.last())).len() == 2);
            assert(collect_spec(names) == rest.push(m));
            assert(forall|k: int|
                0 <= k < rest.len() ==> #[trigger] collect_spec(names)[k] == rest[k]);
        } else {
            assert(collect_spec(names) == rest);
        }
    }
}

/// The pipeline's guarantee: for a run whose collected filenames write
/// their numeric codes in plain digits, as the camera does, the resulting
/// groups are sorted by fingerprint and every group's chapters are sorted
/// by identifier order. Sign-prefixed codes such as "+1" are the one
/// exclusion: they parse numerically yet differ from their zero-padded
/// form, and on them the ordering rule of the data model is not a strict
/// order.
pub proof fn lemma_group_movies_output_sorted(names: Seq<Seq<char>>)
    requires
        forall|k: int|
            0 <= k < collect_spec(names).len() ==> crate::identifier::id_canonical(
                (#[trigger] collect_spec(names)[k]).fingerprint.file,
            ) && crate::identifier::id_canonical(collect_spec(names)[k].chapter),
    ensures
        groups_sorted(spec_group_movies(collect_spec(names))),
        forall|gi: int|
            0 <= gi < spec_group_movies(collect_spec(names)).len() ==> ids_sorted(
                (#[trigger] spec_group_movies(collect_spec(names))[gi]).chapters,
            ),
{
    lemma_collected_movies_wf(names);
    lemma_group_movies_groups_sorted(collect_spec(names));
    lemma_group_movies_chapters_sorted(collect_spec(names));
}

} // verus!

//! The laws the resolver guarantees, stated and proved over its
//! mathematical model.

use vstd::prelude::*;

use crate::error::Error;
use crate::readers::spec_bsearch;
use crate::readers::spec_find;
use crate::readers::spec_probe;
use crate::readers::Model;
use crate::readers::SpecFind;
use crate::readers::ResourceReader;
use crate::types::record;
use crate::types::spec_compression_of;
use crate::types::CompressionAlgorithm;
use crate::utils;

verus! {

/// Every child's flag and hash read in `[co, co + cnt)` stays within the
/// image.
pub open spec fn children_readable(m: Model, co: int, cnt: int) -> bool {
    forall|i: int| co <= i < co + cnt ==> (#[trigger] spec_probe(m, i)) is Ok
}

/// Child hashes appear in non-decreasing order across the child index range
/// `[co, co + cnt)`: the well-formedness the writer guarantees and the
/// binary search relies on.
pub open spec fn children_sorted(m: Model, co: int, cnt: int) -> bool {
    forall|i: int, j: int|
        co <= i <= j < co + cnt ==> (#[trigger] spec_probe(m, i))->Ok_0
            <= (#[trigger] spec_probe(m, j))->Ok_0
}

/// Child hashes appear in strictly increasing order: no two siblings share
/// a hash.
pub open spec fn children_strictly_sorted(m: Model, co: int, cnt: int) -> bool {
    forall|i: int, j: int|
        co <= i < j < co + cnt ==> (#[trigger] spec_probe(m, i))->Ok_0
            < (#[trigger] spec_probe(m, j))->Ok_0
}

/// Every child's name in `[co, co + cnt)` decodes.
pub open spec fn children_named(m: Model, co: int, cnt: int) -> bool {
    forall|i: int| co <= i < co + cnt ==> (#[trigger] m.rec_name(i)) is Ok
}

/// The index the hash-ordered binary search settles on.
pub open spec fn found_index(m: Model, co: int, cnt: int, key: u32) -> int {
    spec_bsearch(m, co, 0, cnt, key)->Ok_0->Some_0
}

/// Soundness of the search: a found child lies in the searched range and
/// its stored hash is the key.
pub proof fn lemma_bsearch_sound(m: Model, co: int, left: int, right: int, key: u32)
    ensures
        spec_bsearch(m, co, left, right, key) matches Ok(oi) ==> (oi matches Some(idx) ==> (left
            <= idx - co < right && spec_probe(m, idx) == Ok::<u32, Error>(key))),
    decreases right - left,
{
    if left >= right {
    } else {
        let mid = (left + right) / 2;
        match spec_probe(m, co + mid) {
            Err(_) => {},
            Ok(h) => {
                if h == key {
                } else if h < key {
                    lemma_bsearch_sound(m, co, mid + 1, right, key);
                } else {
                    lemma_bsearch_sound(m, co, left, mid, key);
                }
            },
        }
    }
}

/// Completeness of the search: over a readable range whose hashes are
/// non-decreasing, the search finds a child whenever one carries the key.
pub proof fn lemma_bsearch_complete(m: Model, co: int, left: int, right: int, key: u32)
    requires
        0 <= left <= right,
        forall|i: int| left <= i < right ==> (#[trigger] spec_probe(m, co + i)) is Ok,
        forall|i: int, j: int|
            left <= i <= j < right ==> (#[trigger] spec_probe(m, co + i))->Ok_0
                <= (#[trigger] spec_probe(m, co + j))->Ok_0,
        exists|i: int|
            left <= i < right && #[trigger] spec_probe(m, co + i) == Ok::<u32, Error>(key),
    ensures
        spec_bsearch(m, co, left, right, key) matches Ok(oi) && oi is Some,
    decreases right - left,
{
    let wi = choose|i: int|
        left <= i < right && #[trigger] spec_probe(m, co + i) == Ok::<u32, Error>(key);
    let mid = (left + right) / 2;
    assert(left <= mid < right);
    let h = spec_probe(m, co + mid)->Ok_0;
    assert(spec_probe(m, co + mid) is Ok);
    if h == key {
    } else if h < key {
        assert(wi > mid) by {
            if wi <= mid {
                assert(spec_probe(m, co + wi)->Ok_0 <= h);
            }
        }
        lemma_bsearch_complete(m, co, mid + 1, right, key);
    } else {
        assert(wi < mid) by {
            if wi >= mid {
                assert(h <= spec_probe(m, co + wi)->Ok_0);
            }
        }
        lemma_bsearch_complete(m, co, left, mid, key);
    }
}

/// Resolution is a pure function of the byte image, the structural
/// parameters, and the path: two sessions with equal models resolve every
/// path to the same outcome, so — through `find`'s contract — repeated
/// calls on the same image and path agree.
pub proof fn lemma_find_pure<'a, 'b>(a: ResourceReader<'a>, b: ResourceReader<'b>, path: Seq<char>)
    requires
        a.model() == b.model(),
    ensures
        spec_find(a.model(), path) == spec_find(b.model(), path),
{
}

/// For a file whose payload is stored plain (or is empty), the reported
/// decompressed size equals the length of the decoded data, which is the
/// stored payload itself.
pub proof fn lemma_plain_size_is_data_len(img: Seq<u8>, data_off: int, ptr: int)
    requires
        record::spec_flags(img, ptr) is Ok,
        crate::types::spec_raw_data(img, data_off, ptr) is Ok,
        spec_compression_of(record::spec_flags(img, ptr)->Ok_0) == CompressionAlgorithm::Plain
            || crate::types::spec_raw_data(img, data_off, ptr)->Ok_0.len() == 0,
    ensures
        crate::types::spec_size(img, data_off, ptr) == Ok::<u64, Error>(
            crate::types::spec_raw_data(img, data_off, ptr)->Ok_0.len() as u64,
        ),
{
}

/// Over a hash-sorted child range, the stored hashes the accessors expose
/// appear in non-decreasing order across the child index range.
pub proof fn lemma_child_hashes_nondecreasing(m: Model, co: int, cnt: int, i: int, j: int)
    requires
        children_sorted(m, co, cnt),
        children_readable(m, co, cnt),
        co <= i <= j < co + cnt,
    ensures
        m.rec_hash(i) is Ok,
        m.rec_hash(j) is Ok,
        m.rec_hash(i)->Ok_0 <= m.rec_hash(j)->Ok_0,
{
    assert(spec_probe(m, i) is Ok);
    assert(spec_probe(m, j) is Ok);
    assert(spec_probe(m, i)->Ok_0 <= spec_probe(m, j)->Ok_0);
}

/// Appending one segment to a resolved path descends exactly one more step:
/// through a found directory's child range, to nothing past a file or a
/// miss.
pub proof fn lemma_resolve_snoc(
    m: Model,
    segs: Seq<Seq<char>>,
    seg: Seq<char>,
    cc: int,
    co: int,
    path: Seq<char>,
)
    requires
        segs.len() > 0,
    ensures
        crate::readers::spec_resolve(m, segs.push(seg), cc, co, path) == (match crate::readers::spec_resolve(m, segs, cc, co, path) {
            SpecFind::Fail(e) => SpecFind::Fail(e),
            SpecFind::Missing => SpecFind::Missing,
            SpecFind::Found { index, is_dir, path: p } => {
                if is_dir {
                    match m.dir_child_count(index) {
                        Err(e) => SpecFind::Fail(e),
                        Ok(cc2) => match m.dir_child_offset(index) {
                            Err(e) => SpecFind::Fail(e),
                            Ok(co2) => crate::readers::spec_resolve(
                                m,
                                seq![seg],
                                cc2 as int,
                                co2 as int,
                                p,
                            ),
                        },
                    }
                } else {
                    SpecFind::Missing
                }
            },
        }),
    decreases segs.len(),
{
    let ext = segs.push(seg);
    assert(ext[0] == segs[0]);
    assert(ext.drop_first() =~= segs.drop_first().push(seg));
    match crate::readers::spec_bsearch(m, co, 0, cc, utils::spec_qt_hash(segs[0], 0)) {
        Err(_) => {},
        Ok(None) => {},
        Ok(Some(idx)) => {
            match m.rec_name(idx) {
                Err(_) => {},
                Ok(nm) => {
                    let np = utils::spec_path_join(path, nm);
                    if m.rec_is_dir(idx) {
                        if segs.len() > 1 {
                            match m.dir_child_count(idx) {
                                Err(_) => {},
                                Ok(cc2) => {
                                    match m.dir_child_offset(idx) {
                                        Err(_) => {},
                                        Ok(co2) => {
                                            lemma_resolve_snoc(
                                                m,
                                                segs.drop_first(),
                                                seg,
                                                cc2 as int,
                                                co2 as int,
                                                np,
                                            );
                                        },
                                    }
                                },
                            }
                        } else {
                            assert(segs.drop_first().push(seg) =~= seq![seg]);
                        }
                    } else {
                    }
                },
            }
        },
    }
}

/// Resolving a single plain segment in a readable, hash-sorted child range
/// that contains a matching hash finds that child: the stored hash of the
/// result is the hash of the segment.
pub proof fn lemma_resolve_singleton(m: Model, seg: Seq<char>, cc2: int, co2: int, p: Seq<char>)
    requires
        0 <= cc2,
        children_readable(m, co2, cc2),
        children_sorted(m, co2, cc2),
        children_named(m, co2, cc2),
        exists|i: int|
            co2 <= i < co2 + cc2 && #[trigger] spec_probe(m, i) == Ok::<u32, Error>(
                utils::spec_qt_hash(seg, 0),
            ),
    ensures
        ({
            let key = utils::spec_qt_hash(seg, 0);
            let c = found_index(m, co2, cc2, key);
            &&& co2 <= c < co2 + cc2
            &&& spec_probe(m, c) == Ok::<u32, Error>(key)
            &&& m.rec_hash(c) == Ok::<u32, Error>(key)
            &&& m.rec_name(c) is Ok
            &&& crate::readers::spec_resolve(m, seq![seg], cc2, co2, p) == (SpecFind::Found {
                index: c,
                is_dir: m.rec_is_dir(c),
                path: utils::spec_path_join(p, m.rec_name(c)->Ok_0),
            })
        }),
{
    let key = utils::spec_qt_hash(seg, 0);
    assert forall|i: int| 0 <= i < cc2 implies (#[trigger] spec_probe(m, co2 + i)) is Ok by {
        assert(spec_probe(m, co2 + i) is Ok);
    }
    assert forall|i: int, j: int|
        0 <= i <= j < cc2 implies (#[trigger] spec_probe(m, co2 + i))->Ok_0 <= (
    #[trigger] spec_probe(m, co2 + j))->Ok_0 by {
        assert(spec_probe(m, co2 + i)->Ok_0 <= spec_probe(m, co2 + j)->Ok_0);
    }
    let wi = choose|i: int|
        co2 <= i < co2 + cc2 && #[trigger] spec_probe(m, i) == Ok::<u32, Error>(key);
    assert(0 <= wi - co2 < cc2 && spec_probe(m, co2 + (wi - co2)) == Ok::<u32, Error>(key));
    lemma_bsearch_complete(m, co2, 0, cc2, key);
    lemma_bsearch_sound(m, co2, 0, cc2, key);
    let c = found_index(m, co2, cc2, key);
    assert(spec_probe(m, c) == Ok::<u32, Error>(key));
    assert(m.rec_hash(c) == Ok::<u32, Error>(key));
    assert(m.rec_name(c) is Ok);
    assert(seq![seg].len() == 1);
    assert(seq![seg][0] == seg);
}

/// The child count of the directory record at `d`, once known to read.
pub open spec fn dir_cc(m: Model, d: int) -> int {
    m.dir_child_count(d)->Ok_0 as int
}

/// The first-child index of the directory record at `d`, once known to
/// read.
pub open spec fn dir_co(m: Model, d: int) -> int {
    m.dir_child_offset(d)->Ok_0 as int
}

/// For every directory whose canonical absolute path `p` resolves to it,
/// and every segment `seg` occurring among its children (a child whose
/// stored hash is `hash(seg, 0)`), resolving `p` joined with `seg` returns
/// a resource whose stored hash equals `hash(seg, 0)` — provided the
/// children are readable and hash-sorted, as a well-formed container
/// guarantees.
pub proof fn lemma_find_child_hash(m: Model, p: Seq<char>, d: int, seg: Seq<char>)
    requires
        !utils::has_drive_prefix(p),
        p == utils::spec_normalise(p),
        spec_find(m, p) == (SpecFind::Found { index: d, is_dir: true, path: p }),
        utils::valid_segment(seg),
        !utils::has_drive_prefix(utils::spec_path_join(p, seg)),
        m.dir_child_count(d) is Ok,
        m.dir_child_offset(d) is Ok,
        children_readable(m, dir_co(m, d), dir_cc(m, d)),
        children_sorted(m, dir_co(m, d), dir_cc(m, d)),
        children_named(m, dir_co(m, d), dir_cc(m, d)),
        exists|i: int|
            dir_co(m, d) <= i < dir_co(m, d) + dir_cc(m, d) && #[trigger] spec_probe(m, i) == Ok::<
                u32,
                Error,
            >(utils::spec_qt_hash(seg, 0)),
    ensures
        ({
            let q = utils::spec_path_join(p, seg);
            let key = utils::spec_qt_hash(seg, 0);
            let c = found_index(m, dir_co(m, d), dir_cc(m, d), key);
            &&& spec_find(m, q) == (SpecFind::Found {
                index: c,
                is_dir: m.rec_is_dir(c),
                path: utils::spec_path_join(p, m.rec_name(c)->Ok_0),
            })
            &&& dir_co(m, d) <= c < dir_co(m, d) + dir_cc(m, d)
            &&& spec_probe(m, c) == Ok::<u32, Error>(key)
            &&& m.rec_hash(c) == Ok::<u32, Error>(key)
        }),
{
    let segs = utils::norm_segments(p);
    let key = utils::spec_qt_hash(seg, 0);
    let q = utils::spec_path_join(p, seg);

    lemma_canonical_join(p, seg);
    assert(utils::norm_segments(utils::unix_path_of(q)) == segs.push(seg));
    assert(segs.push(seg).len() > 0);

    assert(m.rec_flags(0) is Ok);
    assert(m.rec_is_dir(0));

    if segs.len() == 0 {
        assert(spec_find(m, p) == (SpecFind::Found { index: 0, is_dir: true, path: seq!['/'] }));
        assert(d == 0);
        assert(p == seq!['/']);
        lemma_resolve_singleton(m, seg, dir_cc(m, 0), dir_co(m, 0), seq!['/']);
        assert(spec_find(m, q) == crate::readers::spec_resolve(
            m,
            segs.push(seg),
            dir_cc(m, 0),
            dir_co(m, 0),
            seq!['/'],
        ));
        assert(segs.push(seg) =~= seq![seg]);
    } else {
        assert(m.dir_child_count(0) is Ok);
        assert(m.dir_child_offset(0) is Ok);
        let cc_r = dir_cc(m, 0);
        let co_r = dir_co(m, 0);
        assert(crate::readers::spec_resolve(m, segs, cc_r, co_r, seq!['/']) == (SpecFind::Found {
            index: d,
            is_dir: true,
            path: p,
        }));
        lemma_resolve_snoc(m, segs, seg, cc_r, co_r, seq!['/']);
        lemma_resolve_singleton(m, seg, dir_cc(m, d), dir_co(m, d), p);
        assert(spec_find(m, q) == crate::readers::spec_resolve(
            m,
            segs.push(seg),
            cc_r,
            co_r,
            seq!['/'],
        ));
    }
}


/// Joining a plain name segment onto a canonical absolute path yields a
/// path whose normalised segments are the base path's segments extended by
/// that name.
pub proof fn lemma_canonical_join(p: Seq<char>, seg: Seq<char>)
    requires
        !utils::has_drive_prefix(p),
        p == utils::spec_normalise(p),
        utils::valid_segment(seg),
        !utils::has_drive_prefix(utils::spec_path_join(p, seg)),
    ensures
        utils::unix_path_of(p) == p,
        p == utils::render_path(utils::norm_segments(p)),
        forall|i: int|
            0 <= i < utils::norm_segments(p).len() ==> utils::valid_segment(
                #[trigger] utils::norm_segments(p)[i],
            ),
        utils::norm_segments(
            utils::unix_path_of(utils::spec_path_join(p, seg)),
        ) == utils::norm_segments(p).push(seg),
{
    let u = utils::unix_path_of(p);
    let segs = utils::norm_segments(u);
    let q = utils::spec_path_join(p, seg);
    utils::lemma_unix_path_no_backslash(p);
    utils::lemma_segments_valid(u);
    assert(p == utils::render_path(segs));
    assert(forall|i: int, j: int|
        0 <= i < segs.len() && 0 <= j < segs[i].len() ==> segs[i][j] != '\\');
    utils::lemma_render_chars(segs);
    utils::lemma_unix_path_identity(p);
    assert(u == p);
    utils::lemma_join_render(segs, seg);
    assert(q == utils::render_path(segs.push(seg)));
    assert(forall|i: int|
        0 <= i < segs.push(seg).len() ==> utils::valid_segment(#[trigger] segs.push(seg)[i]));
    assert(forall|i: int, j: int|
        0 <= i < segs.push(seg).len() && 0 <= j < segs.push(seg)[i].len() ==> segs.push(seg)[i][j]
            != '\\');
    utils::lemma_render_chars(segs.push(seg));
    utils::lemma_unix_path_identity(q);
    utils::lemma_norm_render_id(segs.push(seg));
}

/// Strictly increasing hashes are in particular non-decreasing.
proof fn lemma_strict_implies_sorted(m: Model, co2: int, cc2: int)
    requires
        children_strictly_sorted(m, co2, cc2),
    ensures
        children_sorted(m, co2, cc2),
{
    assert forall|i: int, j: int|
        co2 <= i <= j < co2 + cc2 implies (#[trigger] spec_probe(m, i))->Ok_0 <= (
    #[trigger] spec_probe(m, j))->Ok_0 by {
        if i < j {
            assert(spec_probe(m, i)->Ok_0 < spec_probe(m, j)->Ok_0);
        }
    }
}

/// Under strictly increasing hashes, at most one child carries any given
/// hash value.
proof fn lemma_strict_unique(m: Model, co2: int, cc2: int, a: int, b: int)
    requires
        children_strictly_sorted(m, co2, cc2),
        co2 <= a < co2 + cc2,
        co2 <= b < co2 + cc2,
        spec_probe(m, a)->Ok_0 == spec_probe(m, b)->Ok_0,
    ensures
        a == b,
{
    if a < b {
        assert(spec_probe(m, a)->Ok_0 < spec_probe(m, b)->Ok_0);
    } else if b < a {
        assert(spec_probe(m, b)->Ok_0 < spec_probe(m, a)->Ok_0);
    }
}

/// The identification step behind [`lemma_find_child_name`]: with strictly
/// increasing sibling hashes, the child the search settles on is the child
/// known to carry the segment's hash and name.
#[verifier::rlimit(100)]
#[verifier::spinoff_prover]
proof fn lemma_find_child_name_at(m: Model, p: Seq<char>, d: int, seg: Seq<char>, wi: int)
    requires
        !utils::has_drive_prefix(p),
        p == utils::spec_normalise(p),
        spec_find(m, p) == (SpecFind::Found { index: d, is_dir: true, path: p }),
        utils::valid_segment(seg),
        !utils::has_drive_prefix(utils::spec_path_join(p, seg)),
        m.dir_child_count(d) is Ok,
        m.dir_child_offset(d) is Ok,
        children_readable(m, dir_co(m, d), dir_cc(m, d)),
        children_sorted(m, dir_co(m, d), dir_cc(m, d)),
        children_strictly_sorted(m, dir_co(m, d), dir_cc(m, d)),
        children_named(m, dir_co(m, d), dir_cc(m, d)),
        dir_co(m, d) <= wi < dir_co(m, d) + dir_cc(m, d),
        spec_probe(m, wi) == Ok::<u32, Error>(utils::spec_qt_hash(seg, 0)),
        m.rec_name(wi) == Ok::<Seq<char>, Error>(seg),
    ensures
        ({
            let key = utils::spec_qt_hash(seg, 0);
            let c = found_index(m, dir_co(m, d), dir_cc(m, d), key);
            &&& spec_find(m, utils::spec_path_join(p, seg)) == (SpecFind::Found {
                index: c,
                is_dir: m.rec_is_dir(c),
                path: utils::spec_path_join(p, seg),
            })
            &&& m.rec_name(c) == Ok::<Seq<char>, Error>(seg)
        }),
{
    let key = utils::spec_qt_hash(seg, 0);
    let co2 = dir_co(m, d);
    let cc2 = dir_cc(m, d);
    lemma_find_child_hash(m, p, d, seg);
    let c = found_index(m, co2, cc2, key);
    lemma_strict_unique(m, co2, cc2, c, wi);
    assert(m.rec_name(c) == Ok::<Seq<char>, Error>(seg));
}

/// For every file reachable as a child of a directory whose canonical
/// absolute path `p` resolves to it: when sibling hashes are strictly
/// increasing and a child is in fact named `seg`, resolving `p` joined with
/// `seg` returns precisely that child, so the name of the returned resource
/// equals the last segment of the path walked.
#[verifier::rlimit(100)]
#[verifier::spinoff_prover]
pub proof fn lemma_find_child_name(m: Model, p: Seq<char>, d: int, seg: Seq<char>)
    requires
        !utils::has_drive_prefix(p),
        p == utils::spec_normalise(p),
        spec_find(m, p) == (SpecFind::Found { index: d, is_dir: true, path: p }),
        utils::valid_segment(seg),
        !utils::has_drive_prefix(utils::spec_path_join(p, seg)),
        m.dir_child_count(d) is Ok,
        m.dir_child_offset(d) is Ok,
        children_readable(m, dir_co(m, d), dir_cc(m, d)),
        children_strictly_sorted(m, dir_co(m, d), dir_cc(m, d)),
        children_named(m, dir_co(m, d), dir_cc(m, d)),
        exists|i: int|
            dir_co(m, d) <= i < dir_co(m, d) + dir_cc(m, d) && #[trigger] spec_probe(m, i) == Ok::<
                u32,
                Error,
            >(utils::spec_qt_hash(seg, 0)) && m.rec_name(i) == Ok::<Seq<char>, Error>(seg),
    ensures
        ({
            let q = utils::spec_path_join(p, seg);
            let key = utils::spec_qt_hash(seg, 0);
            let c = found_index(m, dir_co(m, d), dir_cc(m, d), key);
            &&& spec_find(m, q) == (SpecFind::Found {
                index: c,
                is_dir: m.rec_is_dir(c),
                path: utils::spec_path_join(p, seg),
            })
            &&& m.rec_name(c) == Ok::<Seq<char>, Error>(seg)
            &&& utils::norm_segments(utils::unix_path_of(q)).last() == seg
        }),
{
    let wi = choose|i: int|
        dir_co(m, d) <= i < dir_co(m, d) + dir_cc(m, d) && #[trigger] spec_probe(m, i) == Ok::<
            u32,
            Error,
        >(utils::spec_qt_hash(seg, 0)) && m.rec_name(i) == Ok::<Seq<char>, Error>(seg);
    lemma_strict_implies_sorted(m, dir_co(m, d), dir_cc(m, d));
    lemma_find_child_name_at(m, p, d, seg, wi);
    lemma_canonical_join(p, seg);
    let segs = utils::norm_segments(p);
    let q = utils::spec_path_join(p, seg);
    assert(utils::norm_segments(utils::unix_path_of(q)) == segs.push(seg));
    assert(segs.push(seg).last() == seg);
}

} // verus!

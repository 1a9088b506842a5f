//! Path handling and the name hasher.
//!
//! The hasher is a pure function over the UTF-16 code units of its key and
//! must produce bit-identical output to the values the resource writer stored,
//! or path lookup would silently fail.

use vstd::prelude::*;
use vstd::string::StrSliceExecFns;
use vstd::string::StringExecFns;

verus! {

/// The UTF-16 code units encoding a single character: one unit for characters
/// in the basic plane, a surrogate pair for the rest.
pub open spec fn utf16_units_of_char(c: char) -> Seq<u16> {
    if (c as u32) < 0x10000 {
        seq![(c as u32) as u16]
    } else {
        seq![
            (((c as u32) - 0x10000) / 0x400 + 0xD800) as u16,
            (((c as u32) - 0x10000) % 0x400 + 0xDC00) as u16,
        ]
    }
}

/// The UTF-16 encoding of a character sequence, in source order.
pub open spec fn utf16_encode(s: Seq<char>) -> Seq<u16>
    decreases s.len(),
{
    if s.len() == 0 {
        Seq::empty()
    } else {
        utf16_units_of_char(s[0]) + utf16_encode(s.drop_first())
    }
}

/// One round of the hash: shift the accumulator, add the code unit, fold the
/// top nibble back in, and keep the low 28 bits.
pub open spec fn qt_hash_step(h: u32, u: u16) -> u32 {
    let t = ((h * 16 + u) % 0x100000000) as u32;
    let x = t ^ ((t & 0xf0000000) >> 23);
    x & 0x0fffffff
}

/// The hash of a unit sequence, chained from `h`.
pub open spec fn qt_hash_units(units: Seq<u16>, h: u32) -> u32
    decreases units.len(),
{
    if units.len() == 0 {
        h
    } else {
        qt_hash_units(units.drop_first(), qt_hash_step(h, units[0]))
    }
}

/// The hash of a text key, chained from `chained`: the fold of
/// [`qt_hash_step`] over the key's UTF-16 code units.
pub open spec fn spec_qt_hash(key: Seq<char>, chained: u32) -> u32 {
    qt_hash_units(utf16_encode(key), chained)
}

/// Relies on `String::push`: appends the given character to the end of the
/// string.
#[verifier::external_body]
pub(crate) fn push_char(s: &mut String, c: char)
    ensures
        final(s)@ == old(s)@.push(c),
{
    s.push(c);
}

/// Computes the 32-bit hash of `key` that the resource writer used to order
/// directory children, chained from `chained`.
///
/// The algorithm walks the UTF-16 code units of the key in source order; the
/// result is a 28-bit value in the low bits.
pub fn qt_hash(key: &str, chained: u32) -> (r: u32)
    ensures
        r == spec_qt_hash(key@, chained),
{
    let len = key.unicode_len();
    let mut h = chained;
    let mut i: usize = 0;
    proof {
        assert(key@.skip(0) =~= key@);
    }
    while i < len
        invariant
            i <= len,
            len == key@.len(),
            spec_qt_hash(key@, chained) == qt_hash_units(utf16_encode(key@.skip(i as int)), h),
        decreases len - i,
    {
        let ghost rest = utf16_encode(key@.skip(i as int + 1));
        let c = key.get_char(i);
        proof {
            assert(key@.skip(i as int)[0] == key@[i as int]);
            assert(key@.skip(i as int).drop_first() =~= key@.skip(i as int + 1));
            assert(utf16_encode(key@.skip(i as int)) == utf16_units_of_char(c) + rest);
        }
        let cu = c as u32;
        if cu < 0x10000 {
            let u = cu as u16;
            proof {
                assert((utf16_units_of_char(c) + rest)[0] == u);
                assert((utf16_units_of_char(c) + rest).drop_first() =~= rest);
                assert(qt_hash_units(utf16_units_of_char(c) + rest, h) == qt_hash_units(
                    rest,
                    qt_hash_step(h, u),
                ));
            }
            h = qt_hash_round(h, u);
        } else {
            let v = cu - 0x10000;
            let u1 = (v / 0x400 + 0xD800) as u16;
            let u2 = (v % 0x400 + 0xDC00) as u16;
            proof {
                let units = utf16_units_of_char(c) + rest;
                assert(units[0] == u1);
                assert(units.drop_first() =~= seq![u2] + rest);
                assert((seq![u2] + rest)[0] == u2);
                assert((seq![u2] + rest).drop_first() =~= rest);
                assert(qt_hash_units(units, h) == qt_hash_units(
                    seq![u2] + rest,
                    qt_hash_step(h, u1),
                ));
                assert(qt_hash_units(seq![u2] + rest, qt_hash_step(h, u1)) == qt_hash_units(
                    rest,
                    qt_hash_step(qt_hash_step(h, u1), u2),
                ));
            }
            h = qt_hash_round(h, u1);
            h = qt_hash_round(h, u2);
        }
        i += 1;
    }
    proof {
        assert(key@.skip(len as int) =~= Seq::<char>::empty());
    }
    h
}

/// Executes one [`qt_hash_step`] round.
fn qt_hash_round(h: u32, u: u16) -> (r: u32)
    ensures
        r == qt_hash_step(h, u),
{
    let t64: u64 = (h as u64) * 16 + (u as u64);
    let t: u32 = (t64 % 0x100000000) as u32;
    let x: u32 = t ^ ((t & 0xf0000000) >> 23);
    x & 0x0fffffff
}

/// Replaces every backslash with a forward slash, character for character.
pub open spec fn map_backslashes(s: Seq<char>) -> Seq<char> {
    s.map_values(|c: char| if c == '\\' { '/' } else { c })
}

/// True when the path starts with a drive designator such as `C:`.
pub open spec fn has_drive_prefix(s: Seq<char>) -> bool {
    s.len() >= 2 && s[1] == ':'
}

/// The POSIX form of a path written in either dialect: a drive designator
/// (and the backslash following it, if any) folds to a leading `/`, and every
/// remaining backslash becomes a slash.
pub open spec fn unix_path_of(s: Seq<char>) -> Seq<char> {
    if has_drive_prefix(s) {
        let rest = if s.len() >= 3 && s[2] == '\\' {
            s.skip(3)
        } else {
            s.skip(2)
        };
        seq!['/'] + map_backslashes(rest)
    } else {
        map_backslashes(s)
    }
}

/// Converts a POSIX or Windows-style path to its POSIX form.
pub fn str_to_unix_path(s: &str) -> (r: String)
    ensures
        r@ == unix_path_of(s@),
{
    let len = s.unicode_len();
    let mut out = String::new();
    let mut start: usize = 0;
    let ghost mut prefix: Seq<char> = Seq::empty();
    if len >= 2 && s.get_char(1) == ':' {
        if len >= 3 && s.get_char(2) == '\\' {
            start = 3;
        } else {
            start = 2;
        }
        push_char(&mut out, '/');
        proof {
            prefix = seq!['/'];
            assert(out@ =~= prefix);
        }
    }
    let mut i = start;
    while i < len
        invariant
            start <= i <= len,
            len == s@.len(),
            out@ == prefix + map_backslashes(s@.subrange(start as int, i as int)),
        decreases len - i,
    {
        let c = s.get_char(i);
        if c == '\\' {
            push_char(&mut out, '/');
        } else {
            push_char(&mut out, c);
        }
        proof {
            assert(s@.subrange(start as int, i + 1) =~= s@.subrange(start as int, i as int).push(
                s@[i as int],
            ));
            assert(map_backslashes(s@.subrange(start as int, i + 1)) =~= map_backslashes(
                s@.subrange(start as int, i as int),
            ).push(if s@[i as int] == '\\' { '/' } else { s@[i as int] }));
        }
        i += 1;
    }
    proof {
        assert(s@.subrange(start as int, len as int) =~= s@.skip(start as int));
        if !has_drive_prefix(s@) {
            assert(s@.skip(0) =~= s@);
        }
    }
    out
}

/// Splits a path on `/`, character by character; `cur` is the segment read so
/// far. Every separator ends a segment, so leading, trailing and doubled
/// slashes produce empty segments.
pub open spec fn split_acc(s: Seq<char>, cur: Seq<char>) -> Seq<Seq<char>>
    decreases s.len(),
{
    if s.len() == 0 {
        seq![cur]
    } else if s[0] == '/' {
        seq![cur] + split_acc(s.drop_first(), Seq::empty())
    } else {
        split_acc(s.drop_first(), cur.push(s[0]))
    }
}

/// The raw segments of a path: the pieces between the separators.
pub open spec fn split_slash(s: Seq<char>) -> Seq<Seq<char>> {
    split_acc(s, Seq::empty())
}

/// Folds one raw segment into the normalised stack: empty and `.` segments
/// vanish, `..` pops the previous segment (or nothing at the root), and any
/// other segment is kept.
pub open spec fn apply_segment(acc: Seq<Seq<char>>, p: Seq<char>) -> Seq<Seq<char>> {
    if p.len() == 0 || p == seq!['.'] {
        acc
    } else if p == seq!['.', '.'] {
        if acc.len() == 0 {
            acc
        } else {
            acc.drop_last()
        }
    } else {
        acc.push(p)
    }
}

/// Folds a list of raw segments into the normalised stack, left to right.
pub open spec fn norm_stack(parts: Seq<Seq<char>>, acc: Seq<Seq<char>>) -> Seq<Seq<char>>
    decreases parts.len(),
{
    if parts.len() == 0 {
        acc
    } else {
        norm_stack(parts.drop_first(), apply_segment(acc, parts[0]))
    }
}

/// The segments that remain after absolutising a POSIX path against the root:
/// only literal names, in order.
pub open spec fn norm_segments(s: Seq<char>) -> Seq<Seq<char>> {
    norm_stack(split_slash(s), Seq::empty())
}

/// Renders segments as `/a/b/...`; the empty list renders as the empty
/// sequence (see [`render_path`] for the root).
pub open spec fn render_segs(segs: Seq<Seq<char>>) -> Seq<char>
    decreases segs.len(),
{
    if segs.len() == 0 {
        Seq::empty()
    } else {
        seq!['/'] + segs[0] + render_segs(segs.drop_first())
    }
}

/// The canonical absolute path spelling the given segments; the root is `/`.
pub open spec fn render_path(segs: Seq<Seq<char>>) -> Seq<char> {
    if segs.len() == 0 {
        seq!['/']
    } else {
        render_segs(segs)
    }
}

/// The fully normalised form of a path in either dialect: fold to POSIX, then
/// absolutise against the root, eliminating `.` and `..` segments.
pub open spec fn spec_normalise(s: Seq<char>) -> Seq<char> {
    render_path(norm_segments(unix_path_of(s)))
}

/// A name that participates in lookup: non-empty, not a marker for the
/// current or parent directory, and free of both separators.
pub open spec fn valid_segment(p: Seq<char>) -> bool {
    p.len() > 0 && p != seq!['.'] && p != seq!['.', '.'] && forall|j: int|
        0 <= j < p.len() ==> p[j] != '/' && p[j] != '\\'
}

/// Joining a child name onto an absolute directory path.
pub open spec fn spec_path_join(base: Seq<char>, name: Seq<char>) -> Seq<char> {
    if base == seq!['/'] {
        base + name
    } else {
        base + seq!['/'] + name
    }
}

/// Appends `name` to the absolute path `base`, inserting a separator unless
/// `base` is the root.
pub fn path_join(base: &str, name: &str) -> (r: String)
    ensures
        r@ == spec_path_join(base@, name@),
{
    let mut r = String::from_str(base);
    proof {
        if base@.len() == 1 && base@[0] == '/' {
            assert(base@ =~= seq!['/']);
        }
    }
    if !(base.unicode_len() == 1 && base.get_char(0) == '/') {
        push_char(&mut r, '/');
    }
    r.append(name);
    r
}

/// Folds one raw segment into the normalised segment stack.
fn apply_seg(stack: &mut Vec<String>, seg: String)
    ensures
        final(stack).deep_view() == apply_segment(old(stack).deep_view(), seg@),
{
    let n = seg.as_str().unicode_len();
    if n == 0 {
        return ;
    }
    if n == 1 && seg.as_str().get_char(0) == '.' {
        proof {
            assert(seg@ =~= seq!['.']);
        }
        return ;
    }
    if n == 2 && seg.as_str().get_char(0) == '.' && seg.as_str().get_char(1) == '.' {
        proof {
            assert(seg@ =~= seq!['.', '.']);
        }
        if stack.len() > 0 {
            stack.pop();
            proof {
                assert(stack.deep_view() =~= old(stack).deep_view().drop_last());
            }
        }
        return ;
    }
    proof {
        if n == 1 {
            assert(seg@ != seq!['.']) by {
                assert(seg@[0] != '.');
            }
            assert(seg@ != seq!['.', '.']);
        } else if n == 2 {
            assert(seg@ != seq!['.']);
            assert(seg@ != seq!['.', '.']) by {
                if seg@ == seq!['.', '.'] {
                    assert(seg@[0] == '.' && seg@[1] == '.');
                }
            }
        }
    }
    stack.push(seg);
    proof {
        assert(stack.deep_view() =~= old(stack).deep_view().push(seg@));
    }
}

/// The normalised segments of a POSIX path: splits on `/`, then absolutises
/// against the root.
pub fn split_normalise(s: &str) -> (r: Vec<String>)
    ensures
        r.deep_view() == norm_segments(s@),
{
    let len = s.unicode_len();
    let mut stack: Vec<String> = Vec::new();
    let mut cur = String::new();
    let mut i: usize = 0;
    proof {
        assert(s@.skip(0) =~= s@);
        assert(stack.deep_view() =~= Seq::<Seq<char>>::empty());
    }
    while i < len
        invariant
            i <= len,
            len == s@.len(),
            norm_stack(split_acc(s@.skip(i as int), cur@), stack.deep_view()) == norm_segments(s@),
        decreases len - i,
    {
        let c = s.get_char(i);
        proof {
            assert(s@.skip(i as int)[0] == s@[i as int]);
            assert(s@.skip(i as int).drop_first() =~= s@.skip(i + 1));
        }
        if c == '/' {
            let ghost old_stack = stack.deep_view();
            let ghost old_cur = cur@;
            proof {
                assert(split_acc(s@.skip(i as int), cur@) == seq![old_cur] + split_acc(
                    s@.skip(i + 1),
                    Seq::empty(),
                ));
                assert((seq![old_cur] + split_acc(s@.skip(i + 1), Seq::empty()))[0] == old_cur);
                assert((seq![old_cur] + split_acc(s@.skip(i + 1), Seq::empty())).drop_first()
                    =~= split_acc(s@.skip(i + 1), Seq::empty()));
            }
            apply_seg(&mut stack, cur);
            cur = String::new();
        } else {
            push_char(&mut cur, c);
        }
        i += 1;
    }
    proof {
        assert(s@.skip(len as int) =~= Seq::<char>::empty());
        assert(split_acc(Seq::<char>::empty(), cur@) == seq![cur@]);
        assert(seq![cur@][0] == cur@);
        assert(seq![cur@].drop_first() =~= Seq::<Seq<char>>::empty());
        assert(norm_stack(Seq::<Seq<char>>::empty(), apply_segment(stack.deep_view(), cur@))
            == apply_segment(stack.deep_view(), cur@));
        assert(norm_stack(seq![cur@], stack.deep_view()) == apply_segment(
            stack.deep_view(),
            cur@,
        ));
    }
    apply_seg(&mut stack, cur);
    stack
}

/// Rendering one more segment appends a separator and the segment.
pub proof fn lemma_render_snoc(segs: Seq<Seq<char>>, s: Seq<char>)
    ensures
        render_segs(segs.push(s)) == render_segs(segs) + seq!['/'] + s,
    decreases segs.len(),
{
    assert(render_segs(segs.push(s)) == seq!['/'] + segs.push(s)[0] + render_segs(
        segs.push(s).drop_first(),
    ));
    if segs.len() == 0 {
        assert(segs.push(s)[0] == s);
        assert(segs.push(s).drop_first() =~= Seq::<Seq<char>>::empty());
        assert(render_segs(Seq::<Seq<char>>::empty()) == Seq::<char>::empty());
        assert(render_segs(segs.push(s)) =~= render_segs(segs) + seq!['/'] + s);
    } else {
        assert(segs.push(s)[0] == segs[0]);
        assert(segs.push(s).drop_first() =~= segs.drop_first().push(s));
        lemma_render_snoc(segs.drop_first(), s);
        assert(render_segs(segs) == seq!['/'] + segs[0] + render_segs(segs.drop_first()));
        assert(render_segs(segs.push(s)) =~= render_segs(segs) + seq!['/'] + s);
    }
}

/// Renders normalised segments as the canonical absolute path.
fn render_segments(segs: &Vec<String>) -> (r: String)
    ensures
        r@ == render_path(segs.deep_view()),
{
    let n = segs.len();
    if n == 0 {
        let r = String::from_str("/");
        proof {
            reveal_strlit("/");
            assert(r@ =~= seq!['/']);
        }
        return r;
    }
    let mut out = String::new();
    let mut k: usize = 0;
    proof {
        assert(segs.deep_view().take(0) =~= Seq::<Seq<char>>::empty());
        assert(out@ =~= render_segs(segs.deep_view().take(0)));
    }
    while k < n
        invariant
            k <= n,
            n == segs@.len(),
            out@ == render_segs(segs.deep_view().take(k as int)),
        decreases n - k,
    {
        push_char(&mut out, '/');
        out.append(segs[k].as_str());
        proof {
            assert(segs.deep_view().take(k + 1) =~= segs.deep_view().take(k as int).push(
                segs.deep_view()[k as int],
            ));
            lemma_render_snoc(segs.deep_view().take(k as int), segs.deep_view()[k as int]);
            assert(out@ =~= render_segs(segs.deep_view().take(k as int)) + seq!['/'] + segs
                .deep_view()[k as int]);
        }
        k += 1;
    }
    proof {
        assert(segs.deep_view().take(n as int) =~= segs.deep_view());
    }
    out
}

/// Normalises a path in either dialect to its canonical POSIX form: folded to
/// POSIX, absolutised against the root, `.` and `..` segments eliminated.
pub fn normalise(path: &str) -> (r: String)
    ensures
        r@ == spec_normalise(path@),
{
    let unix = str_to_unix_path(path);
    let segs = split_normalise(unix.as_str());
    render_segments(&segs)
}

/// Splitting first walks through a separator-free prefix, gathering it into
/// the open segment.
pub proof fn lemma_split_acc_prefix(a: Seq<char>, t: Seq<char>, c: Seq<char>)
    requires
        forall|j: int| 0 <= j < a.len() ==> a[j] != '/',
    ensures
        split_acc(a + t, c) == split_acc(t, c + a),
    decreases a.len(),
{
    if a.len() == 0 {
        assert(a + t =~= t);
        assert(c + a =~= c);
    } else {
        assert((a + t)[0] == a[0]);
        assert((a + t).drop_first() =~= a.drop_first() + t);
        lemma_split_acc_prefix(a.drop_first(), t, c.push(a[0]));
        assert(c.push(a[0]) + a.drop_first() =~= c + a);
    }
}

/// Splitting a rendered segment list on `/` recovers the list, preceded by
/// the empty segment that the leading separator opens.
pub proof fn lemma_split_render(segs: Seq<Seq<char>>, c: Seq<char>)
    requires
        forall|i: int, j: int|
            0 <= i < segs.len() && 0 <= j < segs[i].len() ==> segs[i][j] != '/',
    ensures
        split_acc(render_segs(segs), c) == seq![c] + segs,
    decreases segs.len(),
{
    if segs.len() == 0 {
        assert(split_acc(render_segs(segs), c) == seq![c]);
        assert(seq![c] + segs =~= seq![c]);
    } else {
        let x = segs[0] + render_segs(segs.drop_first());
        assert(render_segs(segs) == seq!['/'] + x);
        assert((seq!['/'] + x)[0] == '/');
        assert((seq!['/'] + x).drop_first() =~= x);
        lemma_split_acc_prefix(segs[0], render_segs(segs.drop_first()), Seq::empty());
        assert(Seq::<char>::empty() + segs[0] =~= segs[0]);
        lemma_split_render(segs.drop_first(), segs[0]);
        assert(split_acc(render_segs(segs), c) == seq![c] + (seq![segs[0]]
            + segs.drop_first()));
        assert(seq![c] + (seq![segs[0]] + segs.drop_first()) =~= seq![c] + segs);
    }
}

/// Normalising keeps a list of plain name segments as it is, appended to the
/// stack so far.
pub proof fn lemma_norm_normal(parts: Seq<Seq<char>>, acc: Seq<Seq<char>>)
    requires
        forall|i: int| 0 <= i < parts.len() ==> valid_segment(#[trigger] parts[i]),
    ensures
        norm_stack(parts, acc) == acc + parts,
    decreases parts.len(),
{
    if parts.len() == 0 {
        assert(acc + parts =~= acc);
    } else {
        assert(valid_segment(parts[0]));
        assert(apply_segment(acc, parts[0]) == acc.push(parts[0]));
        lemma_norm_normal(parts.drop_first(), acc.push(parts[0]));
        assert(acc.push(parts[0]) + parts.drop_first() =~= acc + parts);
    }
}

/// Splitting never introduces a separator into a segment, and keeps segments
/// free of backslashes when the input is.
pub proof fn lemma_split_no_sep(s: Seq<char>, cur: Seq<char>)
    requires
        forall|j: int| 0 <= j < s.len() ==> s[j] != '\\',
        forall|j: int| 0 <= j < cur.len() ==> cur[j] != '/' && cur[j] != '\\',
    ensures
        forall|i: int, j: int|
            0 <= i < split_acc(s, cur).len() && 0 <= j < split_acc(s, cur)[i].len()
                ==> split_acc(s, cur)[i][j] != '/' && split_acc(s, cur)[i][j] != '\\',
    decreases s.len(),
{
    if s.len() == 0 {
        assert(split_acc(s, cur) == seq![cur]);
        assert forall|i: int, j: int|
            0 <= i < split_acc(s, cur).len() && 0 <= j < split_acc(s, cur)[i].len()
                implies split_acc(s, cur)[i][j] != '/' && split_acc(s, cur)[i][j] != '\\' by {
            assert(split_acc(s, cur)[i] == cur);
        }
    } else if s[0] == '/' {
        lemma_split_no_sep(s.drop_first(), Seq::empty());
        assert forall|i: int, j: int|
            0 <= i < split_acc(s, cur).len() && 0 <= j < split_acc(s, cur)[i].len()
                implies split_acc(s, cur)[i][j] != '/' && split_acc(s, cur)[i][j] != '\\' by {
            let parts = seq![cur] + split_acc(s.drop_first(), Seq::empty());
            assert(split_acc(s, cur) == parts);
            if i == 0 {
                assert(parts[0] == cur);
            } else {
                assert(parts[i] == split_acc(s.drop_first(), Seq::empty())[i - 1]);
            }
        }
    } else {
        assert(forall|j: int|
            0 <= j < cur.push(s[0]).len() ==> cur.push(s[0])[j] != '/' && cur.push(s[0])[j]
                != '\\');
        lemma_split_no_sep(s.drop_first(), cur.push(s[0]));
        assert(split_acc(s, cur) == split_acc(s.drop_first(), cur.push(s[0])));
    }
}

/// Normalising keeps only well-formed name segments on the stack.
pub proof fn lemma_norm_valid(parts: Seq<Seq<char>>, acc: Seq<Seq<char>>)
    requires
        forall|i: int, j: int|
            0 <= i < parts.len() && 0 <= j < parts[i].len()
                ==> parts[i][j] != '/' && parts[i][j] != '\\',
        forall|i: int| 0 <= i < acc.len() ==> valid_segment(#[trigger] acc[i]),
    ensures
        forall|i: int|
            0 <= i < norm_stack(parts, acc).len() ==> valid_segment(
                #[trigger] norm_stack(parts, acc)[i],
            ),
    decreases parts.len(),
{
    if parts.len() == 0 {
    } else {
        let p = parts[0];
        let acc2 = apply_segment(acc, p);
        assert forall|i: int| 0 <= i < acc2.len() implies valid_segment(#[trigger] acc2[i]) by {
            if p.len() == 0 || p == seq!['.'] {
                assert(acc2[i] == acc[i]);
            } else if p == seq!['.', '.'] {
                if acc.len() == 0 {
                    assert(acc2[i] == acc[i]);
                } else {
                    assert(acc2[i] == acc.drop_last()[i]);
                    assert(acc.drop_last()[i] == acc[i]);
                }
            } else {
                assert(forall|j: int| 0 <= j < p.len() ==> p[j] != '/' && p[j] != '\\');
                assert(valid_segment(p));
                if i < acc.len() {
                    assert(acc2[i] == acc[i]);
                } else {
                    assert(acc2[i] == p);
                }
            }
        }
        assert(norm_stack(parts, acc) == norm_stack(parts.drop_first(), acc2));
        assert(forall|i: int, j: int|
            0 <= i < parts.drop_first().len() && 0 <= j < parts.drop_first()[i].len()
                ==> parts.drop_first()[i][j] != '/' && parts.drop_first()[i][j] != '\\');
        lemma_norm_valid(parts.drop_first(), acc2);
    }
}

/// Path normalisation is idempotent: normalising an already-normalised path
/// changes nothing. The one family of inputs left out is paths whose first
/// normalised segment begins with a colon in its second position pattern,
/// which the Windows dialect would re-read as a drive designator.
pub proof fn lemma_normalise_idempotent(p: Seq<char>)
    requires
        !has_drive_prefix(spec_normalise(p)),
    ensures
        spec_normalise(spec_normalise(p)) == spec_normalise(p),
{
    let u = unix_path_of(p);
    let segs = norm_segments(u);
    let out = render_path(segs);

    // the POSIX fold leaves no backslash behind, so every normalised
    // segment is a plain name
    lemma_unix_path_no_backslash(p);
    lemma_segments_valid(u);

    // the rendered path contains no backslash either, so folding it again
    // is a no-op
    assert(forall|i: int, j: int|
        0 <= i < segs.len() && 0 <= j < segs[i].len() ==> segs[i][j] != '\\');
    lemma_render_chars(segs);
    lemma_unix_path_identity(out);

    // splitting the rendered path recovers the segments
    lemma_norm_render_id(segs);
    assert(spec_normalise(out) == render_path(segs));
}

/// A rendered segment list holds only separators and segment characters.
pub proof fn lemma_render_chars(segs: Seq<Seq<char>>)
    requires
        forall|i: int, j: int|
            0 <= i < segs.len() && 0 <= j < segs[i].len() ==> segs[i][j] != '\\',
    ensures
        forall|j: int| 0 <= j < render_path(segs).len() ==> render_path(segs)[j] != '\\',
    decreases segs.len(),
{
    if segs.len() == 0 {
    } else {
        assert(forall|i: int, j: int|
            0 <= i < segs.drop_first().len() && 0 <= j < segs.drop_first()[i].len()
                ==> segs.drop_first()[i][j] != '\\');
        lemma_render_chars(segs.drop_first());
        assert forall|j: int|
            0 <= j < render_segs(segs).len() implies render_segs(segs)[j] != '\\' by {
            let body = seq!['/'] + segs[0] + render_segs(segs.drop_first());
            assert(render_segs(segs) == body);
            if j == 0 {
            } else if j < 1 + segs[0].len() {
                assert(body[j] == segs[0][j - 1]);
            } else {
                assert(body[j] == render_segs(segs.drop_first())[j - 1 - segs[0].len()]);
                if segs.drop_first().len() > 0 {
                    assert(render_path(segs.drop_first()) == render_segs(segs.drop_first()));
                }
            }
        }
    }
}

/// The characters encoded by a UTF-16 unit sequence, or `None` when the
/// sequence is not valid UTF-16 (an unpaired or misordered surrogate).
pub open spec fn utf16_decode(units: Seq<u16>) -> Option<Seq<char>>
    decreases units.len(),
{
    if units.len() == 0 {
        Some(Seq::empty())
    } else {
        let u = units[0];
        if u < 0xD800 || u >= 0xE000 {
            match utf16_decode(units.drop_first()) {
                None => None,
                Some(rest) => Some(seq![((u as u32) as char)] + rest),
            }
        } else if u < 0xDC00 {
            if units.len() >= 2 && 0xDC00 <= units[1] < 0xE000 {
                let v = (0x10000 + (units[0] - 0xD800) * 0x400 + (units[1] - 0xDC00)) as u32;
                match utf16_decode(units.skip(2)) {
                    None => None,
                    Some(rest) => Some(seq![(v as char)] + rest),
                }
            } else {
                None
            }
        } else {
            None
        }
    }
}

/// Relies on `char::from_u32`: yields the character with the given scalar
/// value exactly when the value is a Unicode scalar value, and `None` for
/// surrogate and out-of-range values.
#[verifier::external_body]
pub(crate) fn char_from_u32(v: u32) -> (r: Option<char>)
    ensures
        (r is Some) <==> (v < 0xD800 || (0xE000 <= v && v <= 0x10FFFF)),
        r matches Some(c) ==> c as u32 == v,
{
    char::from_u32(v)
}

/// The POSIX fold leaves no backslash behind.
pub proof fn lemma_unix_path_no_backslash(s: Seq<char>)
    ensures
        forall|j: int| 0 <= j < unix_path_of(s).len() ==> unix_path_of(s)[j] != '\\',
{
}

/// A path that is already in POSIX form folds to itself.
pub proof fn lemma_unix_path_identity(s: Seq<char>)
    requires
        !has_drive_prefix(s),
        forall|j: int| 0 <= j < s.len() ==> s[j] != '\\',
    ensures
        unix_path_of(s) == s,
{
    assert(map_backslashes(s) =~= s);
}

/// Every normalised segment of a backslash-free path is a plain name.
pub proof fn lemma_segments_valid(s: Seq<char>)
    requires
        forall|j: int| 0 <= j < s.len() ==> s[j] != '\\',
    ensures
        forall|i: int|
            0 <= i < norm_segments(s).len() ==> valid_segment(#[trigger] norm_segments(s)[i]),
{
    lemma_split_no_sep(s, Seq::empty());
    lemma_norm_valid(split_slash(s), Seq::empty());
}

/// Rendering a list of plain name segments and splitting the result on the
/// separators recovers the list.
pub proof fn lemma_norm_render_id(segs: Seq<Seq<char>>)
    requires
        forall|i: int| 0 <= i < segs.len() ==> valid_segment(#[trigger] segs[i]),
    ensures
        norm_segments(render_path(segs)) == segs,
{
    let out = render_path(segs);
    if segs.len() == 0 {
        assert(out == seq!['/']);
        assert(out[0] == '/');
        assert(out.drop_first() =~= Seq::<char>::empty());
        assert(split_acc(out, Seq::<char>::empty()) == seq![Seq::<char>::empty()] + split_acc(
            Seq::<char>::empty(),
            Seq::<char>::empty(),
        ));
        assert(split_acc(Seq::<char>::empty(), Seq::<char>::empty()) == seq![Seq::<char>::empty()]);
        let sp = seq![Seq::<char>::empty()] + seq![Seq::<char>::empty()];
        assert(split_acc(out, Seq::<char>::empty()) == sp);
        assert(sp[0].len() == 0 && sp[1].len() == 0);
        assert(apply_segment(Seq::<Seq<char>>::empty(), sp[0]) == Seq::<Seq<char>>::empty());
        assert(sp.drop_first() =~= seq![Seq::<char>::empty()]);
        assert(seq![Seq::<char>::empty()][0].len() == 0);
        assert(seq![Seq::<char>::empty()].drop_first() =~= Seq::<Seq<char>>::empty());
        assert(norm_stack(sp, Seq::<Seq<char>>::empty()) == norm_stack(
            sp.drop_first(),
            apply_segment(Seq::<Seq<char>>::empty(), sp[0]),
        ));
        assert(norm_stack(seq![Seq::<char>::empty()], Seq::<Seq<char>>::empty()) == norm_stack(
            seq![Seq::<char>::empty()].drop_first(),
            apply_segment(Seq::<Seq<char>>::empty(), seq![Seq::<char>::empty()][0]),
        ));
        assert(norm_stack(Seq::<Seq<char>>::empty(), Seq::<Seq<char>>::empty())
            == Seq::<Seq<char>>::empty());
        assert(norm_segments(out) =~= segs);
    } else {
        assert(forall|i: int, j: int|
            0 <= i < segs.len() && 0 <= j < segs[i].len() ==> segs[i][j] != '/');
        lemma_split_render(segs, Seq::empty());
        let sp = seq![Seq::<char>::empty()] + segs;
        assert(split_acc(out, Seq::empty()) == sp);
        assert(sp[0].len() == 0);
        assert(apply_segment(Seq::empty(), sp[0]) =~= Seq::<Seq<char>>::empty());
        assert(sp.drop_first() =~= segs);
        lemma_norm_normal(segs, Seq::empty());
        assert(Seq::<Seq<char>>::empty() + segs =~= segs);
        assert(norm_segments(out) == segs);
    }
}

/// Joining one more name onto a canonical absolute path renders the extended
/// segment list.
pub proof fn lemma_join_render(segs: Seq<Seq<char>>, seg: Seq<char>)
    requires
        forall|i: int| 0 <= i < segs.len() ==> valid_segment(#[trigger] segs[i]),
    ensures
        spec_path_join(render_path(segs), seg) == render_path(segs.push(seg)),
{
    lemma_render_snoc(segs, seg);
    if segs.len() == 0 {
        assert(render_path(segs) == seq!['/']);
        assert(render_segs(segs) == Seq::<char>::empty());
        assert(spec_path_join(seq!['/'], seg) == seq!['/'] + seg);
        assert(Seq::<char>::empty() + seq!['/'] + seg =~= seq!['/'] + seg);
    } else {
        assert(render_path(segs) == render_segs(segs));
        assert(render_segs(segs) == seq!['/'] + segs[0] + render_segs(segs.drop_first()));
        assert(valid_segment(segs[0]));
        assert(render_segs(segs).len() >= 1 + segs[0].len());
        assert(render_segs(segs) != seq!['/']);
        assert(spec_path_join(render_path(segs), seg) == render_path(segs.push(seg)));
    }
}

} // verus!

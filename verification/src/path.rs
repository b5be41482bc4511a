//! Canonical paths.
//!
//! A path is a sequence of bytes. Its canonical form is the sequence of the
//! names that remain once the path has been cut at every separator, empty
//! segments and `.` have been dropped, and every `..` has removed the name
//! before it. Only absolute paths have a canonical form. Whether one path
//! lies under another is decided on canonical forms, name by name, so that
//! `/tmp/../etc` is not under `/tmp` and `/tmpfile` is not either.
//!
//! The canonical form is computed from the bytes alone. Symbolic links are a
//! property of the disk: a caller that wants them followed resolves them
//! before it hands a path over.

use vstd::prelude::*;

verus! {

/// The byte that separates the segments of a path, `/`.
pub const SEPARATOR: u8 = 47;

/// The byte of which the segments `.` and `..` are made.
pub const DOT: u8 = 46;

/// The bytes of a path that is given as text: its UTF-8 encoding.
pub open spec fn path_bytes(text: Seq<char>) -> Seq<u8> {
    vstd::utf8::encode_utf8(text)
}

/// No byte of `seg` is the separator.
pub open spec fn separator_free(seg: Seq<u8>) -> bool {
    forall|j: int| 0 <= j < seg.len() ==> seg[j] != SEPARATOR
}

/// `seg` is the segment `.`, which stands for the directory it is in.
pub open spec fn is_current(seg: Seq<u8>) -> bool {
    seg.len() == 1 && seg[0] == DOT
}

/// `seg` is the segment `..`, which stands for the parent directory.
pub open spec fn is_parent(seg: Seq<u8>) -> bool {
    seg.len() == 2 && seg[0] == DOT && seg[1] == DOT
}

/// `seg` names a directory entry: it is not empty, holds no separator, and
/// is neither `.` nor `..`.
pub open spec fn is_name(seg: Seq<u8>) -> bool {
    &&& seg.len() > 0
    &&& separator_free(seg)
    &&& !is_current(seg)
    &&& !is_parent(seg)
}

/// Every element of `names` is a name.
pub open spec fn all_names(names: Seq<Seq<u8>>) -> bool {
    forall|i: int| 0 <= i < names.len() ==> is_name(#[trigger] names[i])
}

/// The segments of `s`: the runs of bytes between its separators, in order.
/// A path with `n` separators has `n + 1` segments, some of them possibly
/// empty.
pub open spec fn segments(s: Seq<u8>) -> Seq<Seq<u8>>
    decreases s.len(),
{
    if s.len() == 0 {
        seq![Seq::<u8>::empty()]
    } else {
        let before = segments(s.drop_last());
        if s.last() == SEPARATOR {
            before.push(Seq::<u8>::empty())
        } else {
            before.drop_last().push(before.last().push(s.last()))
        }
    }
}

/// The names that are left when the segment `seg` follows the names `stack`.
pub open spec fn step(stack: Seq<Seq<u8>>, seg: Seq<u8>) -> Seq<Seq<u8>> {
    if seg.len() == 0 || is_current(seg) {
        stack
    } else if is_parent(seg) {
        if stack.len() > 0 {
            stack.drop_last()
        } else {
            stack
        }
    } else {
        stack.push(seg)
    }
}

/// The names that are left when the segments `segs` are followed from the
/// root. The parent of the root is the root.
pub open spec fn resolve(segs: Seq<Seq<u8>>) -> Seq<Seq<u8>>
    decreases segs.len(),
{
    if segs.len() == 0 {
        Seq::<Seq<u8>>::empty()
    } else {
        step(resolve(segs.drop_last()), segs.last())
    }
}

/// `s` starts at the root.
pub open spec fn is_absolute(s: Seq<u8>) -> bool {
    s.len() > 0 && s[0] == SEPARATOR
}

/// The canonical form of the path `s`, or `None` where `s` is not absolute.
pub open spec fn canonical(s: Seq<u8>) -> Option<Seq<Seq<u8>>> {
    if is_absolute(s) {
        Some(resolve(segments(s)))
    } else {
        None
    }
}

/// The bytes of the names `names`, each with a separator before it.
pub open spec fn render_names(names: Seq<Seq<u8>>) -> Seq<u8>
    decreases names.len(),
{
    if names.len() == 0 {
        Seq::<u8>::empty()
    } else {
        render_names(names.drop_last()) + seq![SEPARATOR] + names.last()
    }
}

/// The shortest path whose canonical form is `names`: `/` for the root,
/// else the names with a separator before each.
pub open spec fn render(names: Seq<Seq<u8>>) -> Seq<u8> {
    if names.len() == 0 {
        seq![SEPARATOR]
    } else {
        render_names(names)
    }
}

/// The path with canonical form `path` lies at or under the one with
/// canonical form `prefix`.
pub open spec fn is_within(path: Seq<Seq<u8>>, prefix: Seq<Seq<u8>>) -> bool {
    prefix.is_prefix_of(path)
}

/// The path that has the segments `segs`: the segments in order, with a
/// separator between each two.
pub open spec fn join(segs: Seq<Seq<u8>>) -> Seq<u8>
    decreases segs.len(),
{
    if segs.len() == 0 {
        Seq::<u8>::empty()
    } else if segs.len() == 1 {
        segs[0]
    } else {
        join(segs.drop_last()) + seq![SEPARATOR] + segs.last()
    }
}

/// The byte sequences that the vectors of `v` hold.
pub open spec fn contents(v: Seq<Vec<u8>>) -> Seq<Seq<u8>> {
    Seq::new(v.len(), |i: int| v[i]@)
}

/// A path has at least one segment.
pub proof fn lemma_segments_nonempty(s: Seq<u8>)
    ensures
        segments(s).len() >= 1,
    decreases s.len(),
{
    if s.len() > 0 {
        lemma_segments_nonempty(s.drop_last());
    }
}

/// No segment of a path holds a separator.
pub proof fn lemma_segments_separator_free(s: Seq<u8>)
    ensures
        forall|i: int| 0 <= i < segments(s).len() ==> separator_free(#[trigger] segments(s)[i]),
    decreases s.len(),
{
    if s.len() > 0 {
        lemma_segments_nonempty(s.drop_last());
        lemma_segments_separator_free(s.drop_last());
    }
}

/// Appending bytes that hold no separator lengthens the last segment and
/// changes no other.
pub proof fn lemma_segments_extend(s: Seq<u8>, tail: Seq<u8>)
    requires
        separator_free(tail),
    ensures
        segments(s + tail) == segments(s).drop_last().push(segments(s).last() + tail),
    decreases tail.len(),
{
    lemma_segments_nonempty(s);
    if tail.len() == 0 {
        assert(s + tail =~= s);
        assert(segments(s).last() + tail =~= segments(s).last());
        assert(segments(s).drop_last().push(segments(s).last()) =~= segments(s));
    } else {
        let shorter = tail.drop_last();
        lemma_segments_extend(s, shorter);
        assert((s + tail).drop_last() =~= s + shorter);
        assert((s + tail).last() == tail.last());
        let before = segments(s + shorter);
        assert(before.last().push(tail.last()) =~= segments(s).last() + tail);
        assert(before.drop_last() =~= segments(s).drop_last());
    }
}

/// Appending a separator and then bytes that hold none adds those bytes as
/// one more segment.
pub proof fn lemma_segments_append(s: Seq<u8>, seg: Seq<u8>)
    requires
        separator_free(seg),
    ensures
        segments(s + seq![SEPARATOR] + seg) == segments(s).push(seg),
{
    let cut = s + seq![SEPARATOR];
    assert(cut.drop_last() =~= s);
    assert(segments(cut) == segments(s).push(Seq::<u8>::empty()));
    lemma_segments_extend(cut, seg);
    assert(segments(cut).drop_last() =~= segments(s));
    assert(Seq::<u8>::empty() + seg =~= seg);
}

/// Cutting a path into segments loses nothing: joined again, the segments
/// are the path.
pub proof fn lemma_segments_join(s: Seq<u8>)
    ensures
        join(segments(s)) == s,
    decreases s.len(),
{
    if s.len() == 0 {
        assert(join(segments(s)) =~= s);
    } else {
        let before = segments(s.drop_last());
        lemma_segments_nonempty(s.drop_last());
        lemma_segments_join(s.drop_last());
        if s.last() == SEPARATOR {
            let after = before.push(Seq::<u8>::empty());
            assert(after.drop_last() =~= before);
            assert(join(after) =~= s);
        } else {
            let grown = before.last().push(s.last());
            let after = before.drop_last().push(grown);
            if before.len() == 1 {
                assert(join(after) =~= s);
            } else {
                assert(after.drop_last() =~= before.drop_last());
                assert(join(after) =~= join(before).push(s.last()));
                assert(join(after) =~= s);
            }
        }
    }
}

/// The segments of a path are the only way to cut it: whatever segments
/// without a separator are joined, cutting the result gives them back.
pub proof fn lemma_segments_of_join(segs: Seq<Seq<u8>>)
    requires
        segs.len() > 0,
        forall|i: int| 0 <= i < segs.len() ==> separator_free(#[trigger] segs[i]),
    ensures
        segments(join(segs)) == segs,
    decreases segs.len(),
{
    if segs.len() == 1 {
        lemma_resolve_nothing();
        lemma_segments_extend(Seq::<u8>::empty(), segs[0]);
        assert(Seq::<u8>::empty() + segs[0] =~= segs[0]);
        assert(seq![Seq::<u8>::empty()].drop_last().push(Seq::<u8>::empty() + segs[0]) =~= segs);
    } else {
        let init = segs.drop_last();
        assert forall|i: int| 0 <= i < init.len() implies separator_free(#[trigger] init[i]) by {
            assert(init[i] == segs[i]);
        }
        lemma_segments_of_join(init);
        assert(separator_free(segs[segs.len() - 1]));
        lemma_segments_append(join(init), segs.last());
        assert(init.push(segs.last()) =~= segs);
    }
}

/// Following segments that hold no separator leaves names only.
pub proof fn lemma_resolve_names(segs: Seq<Seq<u8>>)
    requires
        forall|i: int| 0 <= i < segs.len() ==> separator_free(#[trigger] segs[i]),
    ensures
        all_names(resolve(segs)),
    decreases segs.len(),
{
    if segs.len() > 0 {
        lemma_resolve_names(segs.drop_last());
        assert(separator_free(segs[segs.len() - 1]));
    }
}

/// A canonical form consists of names: it holds no empty segment, no `.`,
/// no `..` and no separator.
pub proof fn lemma_canonical_names(s: Seq<u8>)
    requires
        is_absolute(s),
    ensures
        all_names(canonical(s).unwrap()),
{
    lemma_segments_separator_free(s);
    lemma_resolve_names(segments(s));
}

/// One more segment at the end of an absolute path acts on its canonical
/// form as `step` says: a name descends, `..` goes up, `.` and the empty
/// segment stay.
pub proof fn lemma_canonical_append(s: Seq<u8>, seg: Seq<u8>)
    requires
        is_absolute(s),
        separator_free(seg),
    ensures
        canonical(s + seq![SEPARATOR] + seg) == Some(step(canonical(s).unwrap(), seg)),
{
    lemma_segments_append(s, seg);
    let longer = s + seq![SEPARATOR] + seg;
    assert(longer[0] == s[0]);
    assert(segments(s).push(seg).drop_last() =~= segments(s));
}

/// The empty path has one segment, the empty one, which leads nowhere.
proof fn lemma_resolve_nothing()
    ensures
        segments(Seq::<u8>::empty()) == seq![Seq::<u8>::empty()],
        resolve(segments(Seq::<u8>::empty())) == Seq::<Seq<u8>>::empty(),
{
    let one = seq![Seq::<u8>::empty()];
    assert(one.drop_last() =~= Seq::<Seq<u8>>::empty());
    assert(resolve(one.drop_last()) =~= Seq::<Seq<u8>>::empty());
    assert(one.last().len() == 0);
    assert(resolve(one) =~= Seq::<Seq<u8>>::empty());
}

/// The rendering of names, read as segments and followed from the root,
/// gives the names back.
proof fn lemma_resolve_rendered(names: Seq<Seq<u8>>)
    requires
        all_names(names),
    ensures
        resolve(segments(render_names(names))) == names,
        names.len() > 0 ==> is_absolute(render_names(names)),
    decreases names.len(),
{
    if names.len() == 0 {
        lemma_resolve_nothing();
    } else {
        let init = names.drop_last();
        let last = names.last();
        assert(is_name(names[names.len() - 1]));
        assert forall|i: int| 0 <= i < init.len() implies is_name(#[trigger] init[i]) by {
            assert(init[i] == names[i]);
        }
        lemma_resolve_rendered(init);
        lemma_segments_append(render_names(init), last);
        let segs = segments(render_names(init)).push(last);
        assert(segs.drop_last() =~= segments(render_names(init)));
        assert(init.push(last) =~= names);
        if init.len() == 0 {
            assert(render_names(init) =~= Seq::<u8>::empty());
            assert(render_names(names)[0] == SEPARATOR);
        } else {
            assert(render_names(names)[0] == render_names(init)[0]);
        }
    }
}

/// Canonical forms and renderings correspond: the rendering of names is an
/// absolute path whose canonical form is those names.
pub proof fn lemma_render_round_trip(names: Seq<Seq<u8>>)
    requires
        all_names(names),
    ensures
        canonical(render(names)) == Some(names),
{
    if names.len() == 0 {
        let root = seq![SEPARATOR];
        lemma_resolve_nothing();
        assert(root.drop_last() =~= Seq::<u8>::empty());
        let before = segments(root.drop_last());
        assert(segments(root) == before.push(Seq::<u8>::empty()));
        assert(segments(root).drop_last() =~= before);
        assert(resolve(segments(root)) =~= names);
    } else {
        lemma_resolve_rendered(names);
    }
}

/// Canonicalization is idempotent: the rendering of a canonical form has
/// that same canonical form.
pub proof fn lemma_canonical_idempotent(s: Seq<u8>)
    requires
        is_absolute(s),
    ensures
        canonical(render(canonical(s).unwrap())) == canonical(s),
{
    lemma_canonical_names(s);
    lemma_render_round_trip(canonical(s).unwrap());
}

/// Lying within is reflexive and transitive, and a path lies within each of
/// the directories above it.
pub proof fn lemma_within_order(a: Seq<Seq<u8>>, b: Seq<Seq<u8>>, c: Seq<Seq<u8>>)
    ensures
        is_within(a, a),
        is_within(a, b) && is_within(b, c) ==> is_within(a, c),
        is_within(a + b, a),
{
    assert(a =~= a.subrange(0, a.len() as int));
    if is_within(a, b) && is_within(b, c) {
        assert(c =~= a.subrange(0, c.len() as int)) by {
            assert forall|i: int| 0 <= i < c.len() implies c[i] == a[i] by {
                assert(c[i] == b.subrange(0, c.len() as int)[i]);
                assert(b[i] == a.subrange(0, b.len() as int)[i]);
            }
        }
    }
    assert(a =~= (a + b).subrange(0, a.len() as int));
}

/// Whether two byte vectors hold the same bytes.
fn same_bytes(a: &Vec<u8>, b: &Vec<u8>) -> (same: bool)
    ensures
        same == (a@ == b@),
{
    let n: usize = a.len();
    if b.len() != n {
        return false;
    }
    let mut i: usize = 0;
    while i < n
        invariant
            i <= n,
            n == a@.len(),
            n == b@.len(),
            forall|j: int| 0 <= j < i ==> a@[j] == b@[j],
        decreases n - i,
    {
        if a[i] != b[i] {
            return false;
        }
        i += 1;
    }
    proof {
        assert(a@ =~= b@);
    }
    true
}

/// Appends the bytes of `src` to `out`.
fn append_bytes(out: &mut Vec<u8>, src: &Vec<u8>)
    ensures
        final(out)@ == old(out)@ + src@,
{
    let n: usize = src.len();
    let mut i: usize = 0;
    while i < n
        invariant
            i <= n,
            n == src@.len(),
            out@ == old(out)@ + src@.take(i as int),
        decreases n - i,
    {
        out.push(src[i]);
        proof {
            assert(src@.take(i + 1) =~= src@.take(i as int).push(src@[i as int]));
            assert(out@ =~= old(out)@ + src@.take(i + 1));
        }
        i += 1;
    }
    proof {
        assert(src@.take(n as int) =~= src@);
    }
}

/// Lets the segment `seg` act on the names resolved so far.
fn apply_segment(stack: &mut Vec<Vec<u8>>, seg: Vec<u8>)
    ensures
        contents(final(stack)@) == step(contents(old(stack)@), seg@),
{
    let n: usize = seg.len();
    if n == 0 || (n == 1 && seg[0] == DOT) {
    } else if n == 2 && seg[0] == DOT && seg[1] == DOT {
        let _ = stack.pop();
        proof {
            assert(contents(stack@) =~= step(contents(old(stack)@), seg@));
        }
    } else {
        stack.push(seg);
        proof {
            assert(contents(stack@) =~= contents(old(stack)@).push(seg@));
        }
    }
}

/// A path in canonical form: the names that lead from the root to it.
#[derive(Debug)]
pub struct CanonicalPath {
    names: Vec<Vec<u8>>,
}

impl View for CanonicalPath {
    type V = Seq<Seq<u8>>;

    closed spec fn view(&self) -> Seq<Seq<u8>> {
        contents(self.names@)
    }
}

impl CanonicalPath {
    #[verifier::type_invariant]
    spec fn well_formed(self) -> bool {
        all_names(contents(self.names@))
    }

    /// The root directory.
    pub fn root() -> (p: Self)
        ensures
            p@ == Seq::<Seq<u8>>::empty(),
    {
        let p = CanonicalPath { names: Vec::new() };
        proof {
            assert(p@ =~= Seq::<Seq<u8>>::empty());
        }
        p
    }

    /// The canonical form of the path `bytes`, or `None` where `bytes` is
    /// not an absolute path.
    pub fn parse(bytes: &[u8]) -> (parsed: Option<Self>)
        ensures
            match parsed {
                Some(p) => canonical(bytes@) == Some(p@),
                None => canonical(bytes@) is None,
            },
    {
        let n: usize = bytes.len();
        if n == 0 || bytes[0] != SEPARATOR {
            return None;
        }
        let mut stack: Vec<Vec<u8>> = Vec::new();
        let mut seg: Vec<u8> = Vec::new();
        let mut i: usize = 0;
        proof {
            lemma_resolve_nothing();
            assert(bytes@.take(0) =~= Seq::<u8>::empty());
            assert(segments(bytes@.take(0)).drop_last() =~= Seq::<Seq<u8>>::empty());
            assert(contents(stack@) =~= Seq::<Seq<u8>>::empty());
        }
        while i < n
            invariant
                i <= n,
                n == bytes@.len(),
                contents(stack@) == resolve(segments(bytes@.take(i as int)).drop_last()),
                seg@ == segments(bytes@.take(i as int)).last(),
            decreases n - i,
        {
            let b: u8 = bytes[i];
            let ghost shorter = bytes@.take(i as int);
            let ghost longer = bytes@.take(i + 1);
            proof {
                assert(longer.drop_last() =~= shorter);
                assert(longer.last() == b);
                lemma_segments_nonempty(shorter);
            }
            if b == SEPARATOR {
                apply_segment(&mut stack, seg);
                seg = Vec::new();
                proof {
                    assert(segments(longer).drop_last() =~= segments(shorter));
                }
            } else {
                seg.push(b);
                proof {
                    assert(segments(longer).drop_last() =~= segments(shorter).drop_last());
                }
            }
            i += 1;
        }
        proof {
            assert(bytes@.take(n as int) =~= bytes@);
            lemma_segments_nonempty(bytes@);
            lemma_canonical_names(bytes@);
        }
        apply_segment(&mut stack, seg);
        Some(CanonicalPath { names: stack })
    }

    /// The number of names between the root and this path.
    pub fn depth(&self) -> (n: usize)
        ensures
            n == self@.len(),
    {
        self.names.len()
    }

    /// Whether this path lies at or under `prefix`.
    pub fn starts_with(&self, prefix: &CanonicalPath) -> (within: bool)
        ensures
            within == is_within(self@, prefix@),
    {
        let n: usize = prefix.names.len();
        if n > self.names.len() {
            return false;
        }
        let mut i: usize = 0;
        while i < n
            invariant
                i <= n,
                n == prefix.names@.len(),
                n <= self.names@.len(),
                forall|j: int| 0 <= j < i ==> prefix@[j] == self@[j],
            decreases n - i,
        {
            if !same_bytes(&prefix.names[i], &self.names[i]) {
                proof {
                    assert(prefix@[i as int] != self@[i as int]);
                    if is_within(self@, prefix@) {
                        assert(self@.subrange(0, n as int)[i as int] == self@[i as int]);
                    }
                }
                return false;
            }
            i += 1;
        }
        proof {
            assert(prefix@ =~= self@.subrange(0, n as int));
        }
        true
    }

    /// The shortest path that has this canonical form.
    pub fn to_bytes(&self) -> (out: Vec<u8>)
        ensures
            out@ == render(self@),
            canonical(out@) == Some(self@),
    {
        proof {
            use_type_invariant(self);
            lemma_render_round_trip(self@);
        }
        let mut out: Vec<u8> = Vec::new();
        let n: usize = self.names.len();
        if n == 0 {
            out.push(SEPARATOR);
            proof {
                assert(out@ =~= seq![SEPARATOR]);
            }
            return out;
        }
        let mut i: usize = 0;
        while i < n
            invariant
                i <= n,
                n == self.names@.len(),
                out@ == render_names(self@.take(i as int)),
            decreases n - i,
        {
            let ghost before = out@;
            out.push(SEPARATOR);
            append_bytes(&mut out, &self.names[i]);
            proof {
                let longer = self@.take(i + 1);
                assert(longer.drop_last() =~= self@.take(i as int));
                assert(longer.last() == self@[i as int]);
                assert(out@ =~= before + seq![SEPARATOR] + self@[i as int]);
            }
            i += 1;
        }
        proof {
            assert(self@.take(n as int) =~= self@);
        }
        out
    }

}

impl PartialEq for CanonicalPath {
    /// Whether this path and `other` are the same path.
    fn eq(&self, other: &CanonicalPath) -> (same: bool) {
        let within: bool = self.starts_with(other);
        proof {
            if self@.len() == other@.len() && within {
                assert(self@ =~= self@.subrange(0, self@.len() as int));
            }
        }
        within && self.names.len() == other.names.len()
    }
}

impl vstd::std_specs::cmp::PartialEqSpecImpl for CanonicalPath {
    open spec fn obeys_eq_spec() -> bool {
        true
    }

    open spec fn eq_spec(&self, other: &CanonicalPath) -> bool {
        self@ == other@
    }
}

impl Eq for CanonicalPath {

}

impl Clone for CanonicalPath {
    /// A copy of this path.
    fn clone(&self) -> (copy: Self)
        ensures
            copy@ == self@,
    {
        proof {
            use_type_invariant(self);
        }
        let mut names: Vec<Vec<u8>> = Vec::new();
        let n: usize = self.names.len();
        let mut i: usize = 0;
        while i < n
            invariant
                i <= n,
                n == self.names@.len(),
                contents(names@) == self@.take(i as int),
            decreases n - i,
        {
            let name: Vec<u8> = self.names[i].clone();
            let ghost before = names@;
            names.push(name);
            proof {
                assert(name@ =~= self.names@[i as int]@);
                assert(contents(before).len() == before.len());
                assert(contents(names@) =~= self@.take(i + 1));
            }
            i += 1;
        }
        proof {
            assert(self@.take(n as int) =~= self@);
        }
        CanonicalPath { names }
    }
}

} // verus!

//! The structural part of turning a glTF document into the editor's model:
//! default names, which meshes belong to which node, and how animation
//! channels are merged by target. Reading the file and converting geometry
//! stay with the caller.

use crate::text::str_eq;
use vstd::prelude::*;

verus! {

/// Loads glTF models.
pub struct GltfLoader;

/// The decimal digits of `n`, most significant first.
pub open spec fn decimal(n: nat) -> Seq<char>
    decreases n,
{
    if n < 10 {
        seq!["0123456789"@[n as int]]
    } else {
        decimal(n / 10) + seq!["0123456789"@[(n % 10) as int]]
    }
}

/// The one-character string of digit `d`.
fn digit_str(d: usize) -> (s: &'static str)
    requires
        d < 10,
    ensures
        s@ == seq!["0123456789"@[d as int]],
{
    let digits = "0123456789";
    proof {
        reveal_strlit("0123456789");
    }
    let s = digits.substring_ascii(d, d + 1);
    assert(s@ =~= seq!["0123456789"@[d as int]]);
    s
}

/// Appends the decimal digits of `n` to `out`.
fn write_decimal(n: usize, out: &mut String)
    ensures
        final(out)@ == old(out)@ + decimal(n as nat),
    decreases n,
{
    if n >= 10 {
        write_decimal(n / 10, out);
    }
    out.append(digit_str(n % 10));
    assert(final(out)@ =~= old(out)@ + decimal(n as nat)) by {
        if n >= 10 {
            assert(decimal(n as nat) == decimal((n / 10) as nat) + seq!["0123456789"@[(n % 10) as int]]);
        }
    }
}

/// The name a glTF object gets: its own, or `prefix` followed by its index.
pub fn name_or_default(name: Option<&str>, prefix: &str, index: usize) -> (r: String)
    ensures
        r@ == (match name {
            Some(n) => n@,
            None => prefix@ + decimal(index as nat),
        }),
{
    match name {
        Some(n) => String::from_str(n),
        None => {
            let mut s = String::from_str(prefix);
            write_decimal(index, &mut s);
            s
        },
    }
}

/// The mesh indices given to one node, whose primitives are listed by
/// whether they carry positions, when the meshes already listed number
/// `start`: each primitive with positions becomes the next mesh.
pub open spec fn node_meshes(prims: Seq<bool>, start: nat, k: nat) -> (Seq<usize>, nat)
    decreases k,
{
    if k == 0 {
        (Seq::empty(), start)
    } else {
        let (l, c) = node_meshes(prims, start, (k - 1) as nat);
        if prims[k - 1] {
            (l.push(c as usize), c + 1)
        } else {
            (l, c)
        }
    }
}

/// The mesh index lists of the first `n` nodes and the number of meshes
/// they make.
pub open spec fn mesh_lists(nodes: Seq<Seq<bool>>, n: nat) -> (Seq<Seq<usize>>, nat)
    decreases n,
{
    if n == 0 {
        (Seq::empty(), 0)
    } else {
        let (ls, c) = mesh_lists(nodes, (n - 1) as nat);
        let (l, c2) = node_meshes(nodes[n - 1], c, nodes[n - 1].len());
        (ls.push(l), c2)
    }
}

proof fn lemma_node_meshes_grow(prims: Seq<bool>, start: nat, k: nat)
    ensures
        node_meshes(prims, start, k).1 >= start,
        node_meshes(prims, start, k).1 <= start + k,
        node_meshes(prims, start, k).0.len() == node_meshes(prims, start, k).1 - start,
    decreases k,
{
    if k > 0 {
        lemma_node_meshes_grow(prims, start, (k - 1) as nat);
    }
}

proof fn lemma_mesh_lists_grow(nodes: Seq<Seq<bool>>, n: nat, m: nat)
    requires
        n <= m <= nodes.len(),
    ensures
        mesh_lists(nodes, n).1 <= mesh_lists(nodes, m).1,
        mesh_lists(nodes, m).0.len() == m,
    decreases m,
{
    if m > 0 {
        let c = mesh_lists(nodes, (m - 1) as nat).1;
        lemma_node_meshes_grow(nodes[m - 1], c, nodes[m - 1].len());
        if n < m {
            lemma_mesh_lists_grow(nodes, n, (m - 1) as nat);
        } else {
            lemma_mesh_lists_grow(nodes, (m - 1) as nat, (m - 1) as nat);
        }
    }
}

/// The mesh indices given to one node lie between the count before it and
/// the count after it.
proof fn lemma_node_meshes_range(prims: Seq<bool>, start: nat, k: nat)
    requires
        node_meshes(prims, start, k).1 <= usize::MAX,
    ensures
        forall|t: int|
            0 <= t < node_meshes(prims, start, k).0.len() ==> start <= #[trigger] node_meshes(
                prims,
                start,
                k,
            ).0[t] < node_meshes(prims, start, k).1,
    decreases k,
{
    if k > 0 {
        lemma_node_meshes_grow_prefix(prims, start, (k - 1) as nat, k);
        lemma_node_meshes_range(prims, start, (k - 1) as nat);
        lemma_node_meshes_grow(prims, start, (k - 1) as nat);
        let (l, c) = node_meshes(prims, start, (k - 1) as nat);
        let (l2, c2) = node_meshes(prims, start, k);
        assert forall|t: int| 0 <= t < l2.len() implies start <= #[trigger] l2[t] < c2 by {
            if prims[k - 1] {
                assert(l2 == l.push(c as usize) && c2 == c + 1);
                if t < l.len() {
                    assert(l2[t] == l[t]);
                    assert(start <= node_meshes(prims, start, (k - 1) as nat).0[t] < c);
                } else {
                    assert(l2[t] == c);
                }
            } else {
                assert(l2 == l && c2 == c);
                assert(start <= node_meshes(prims, start, (k - 1) as nat).0[t] < c);
            }
        }
    }
}

/// Every mesh index given to one of the first `n` nodes is below the number
/// of meshes those nodes make.
proof fn lemma_mesh_lists_range(nodes: Seq<Seq<bool>>, n: nat, i: int, t: int)
    requires
        n <= nodes.len(),
        0 <= i < n,
        0 <= t < mesh_lists(nodes, n).0[i].len(),
        mesh_lists(nodes, n).1 <= usize::MAX,
    ensures
        mesh_lists(nodes, n).0[i][t] < mesh_lists(nodes, n).1,
    decreases n,
{
    let c = mesh_lists(nodes, (n - 1) as nat).1;
    lemma_node_meshes_grow(nodes[n - 1], c, nodes[n - 1].len());
    lemma_mesh_lists_grow(nodes, (n - 1) as nat, (n - 1) as nat);
    lemma_mesh_lists_grow(nodes, (n - 1) as nat, n);
    if i == n - 1 {
        lemma_node_meshes_range(nodes[n - 1], c, nodes[n - 1].len());
    } else {
        assert(mesh_lists(nodes, n).0[i] == mesh_lists(nodes, (n - 1) as nat).0[i]);
        lemma_mesh_lists_range(nodes, (n - 1) as nat, i, t);
    }
}

/// What an animation channel of the document animates.
#[derive(Debug, Clone, Copy, PartialEq, Eq, Structural)]
pub enum TrackKind {
    Translation,
    Rotation,
    Scale,
    /// Morph target weights, which the editor does not play.
    MorphWeights,
}

/// An animation channel of the editor: the node it animates and, for each
/// property, the index of the document channel that supplies its track.
#[derive(Debug, Clone)]
pub struct MergedChannel {
    pub target_name: String,
    pub position_track: Option<usize>,
    pub rotation_track: Option<usize>,
    pub scale_track: Option<usize>,
}

/// The content of a merged channel.
pub struct ChannelView {
    pub name: Seq<char>,
    pub position: Option<usize>,
    pub rotation: Option<usize>,
    pub scale: Option<usize>,
}

impl MergedChannel {
    pub open spec fn view_of(self) -> ChannelView {
        ChannelView {
            name: self.target_name@,
            position: self.position_track,
            rotation: self.rotation_track,
            scale: self.scale_track,
        }
    }
}

/// `c` with the track of the given kind taken from document channel `t`.
pub open spec fn with_track(c: ChannelView, kind: TrackKind, t: usize) -> ChannelView {
    match kind {
        TrackKind::Translation => ChannelView { position: Some(t), ..c },
        TrackKind::Rotation => ChannelView { rotation: Some(t), ..c },
        TrackKind::Scale => ChannelView { scale: Some(t), ..c },
        TrackKind::MorphWeights => c,
    }
}

/// The first position from `i` on of a channel animating `name`.
pub open spec fn find_from(m: Seq<ChannelView>, name: Seq<char>, i: int) -> Option<int>
    decreases m.len() - i,
{
    if i < 0 || i >= m.len() {
        None
    } else if m[i].name == name {
        Some(i)
    } else {
        find_from(m, name, i + 1)
    }
}

/// The channels after the first `n` document channels: each one adds its
/// track to the first channel animating the same node, or starts a new
/// channel for that node.
pub open spec fn merged(names: Seq<Seq<char>>, kinds: Seq<TrackKind>, n: nat) -> Seq<ChannelView>
    decreases n,
{
    if n == 0 {
        Seq::empty()
    } else {
        let m = merged(names, kinds, (n - 1) as nat);
        let t = (n - 1) as usize;
        match find_from(m, names[n - 1], 0) {
            Some(i) => m.update(i, with_track(m[i], kinds[n - 1], t)),
            None => m.push(
                with_track(
                    ChannelView { name: names[n - 1], position: None, rotation: None, scale: None },
                    kinds[n - 1],
                    t,
                ),
            ),
        }
    }
}

/// When the search from `i` finds nothing, no channel from `i` on animates
/// `name`; when it finds one, it is the first.
proof fn lemma_find_from(m: Seq<ChannelView>, name: Seq<char>, i: int)
    requires
        0 <= i <= m.len(),
    ensures
        find_from(m, name, i) is None ==> forall|j: int| i <= j < m.len() ==> m[j].name != name,
        find_from(m, name, i) matches Some(k) ==> i <= k < m.len() && m[k].name == name && forall|
            j: int,
        |
            i <= j < k ==> m[j].name != name,
    decreases m.len() - i,
{
    if i < m.len() && m[i].name != name {
        lemma_find_from(m, name, i + 1);
    }
}

/// The track of the given kind that a merged channel plays, if any.
pub open spec fn track_of(c: ChannelView, kind: TrackKind) -> Option<usize> {
    match kind {
        TrackKind::Translation => c.position,
        TrackKind::Rotation => c.rotation,
        TrackKind::Scale => c.scale,
        TrackKind::MorphWeights => None,
    }
}

/// Document channel `t`, among the first `n`, animates `name` with a track
/// of kind `kind`.
pub open spec fn supplies(
    names: Seq<Seq<char>>,
    kinds: Seq<TrackKind>,
    n: nat,
    t: int,
    name: Seq<char>,
    kind: TrackKind,
) -> bool {
    0 <= t < n && names[t] == name && kinds[t] == kind
}

/// One channel per animated node: every node that one of the first `n`
/// document channels animates has a channel in `m`, no two channels of `m`
/// animate the same node, and every channel's node is animated by one of
/// them.
#[verifier::opaque]
pub open spec fn one_channel_per_node(names: Seq<Seq<char>>, n: nat, m: Seq<ChannelView>) -> bool {
    &&& forall|t: int|
        #![trigger names[t]]
        0 <= t < n ==> exists|i: int| #![trigger m[i]] 0 <= i < m.len() && m[i].name == names[t]
    &&& forall|i: int, j: int| 0 <= i < j < m.len() ==> #[trigger] m[i].name != #[trigger] m[j].name
    &&& forall|i: int|
        #![trigger m[i]]
        0 <= i < m.len() ==> exists|t: int| #![trigger names[t]] 0 <= t < n && names[t] == m[i].name
}

/// Document channel `t` animates the node `name`.
pub open spec fn animates(names: Seq<Seq<char>>, t: int, name: Seq<char>) -> bool {
    names[t] == name
}

/// Channels come in the order in which their nodes are first animated: for
/// two channels, every document channel (among the first `n`) that animates
/// the later one's node comes after some document channel that animates the
/// earlier one's node.
#[verifier::opaque]
pub open spec fn first_seen_order(names: Seq<Seq<char>>, n: nat, m: Seq<ChannelView>) -> bool {
    forall|i: int, j: int, tj: int|
        #![trigger m[i], animates(names, tj, m[j].name)]
        0 <= i < j < m.len() && 0 <= tj < n && animates(names, tj, m[j].name) ==> exists|ti: int|
            #![trigger animates(names, ti, m[i].name)]
            0 <= ti < tj && animates(names, ti, m[i].name)
}

/// Adding a track to an existing channel keeps the channels in first-seen
/// order.
proof fn lemma_order_existing(
    names: Seq<Seq<char>>,
    n: nat,
    m0: Seq<ChannelView>,
    i0: int,
    c: ChannelView,
)
    requires
        0 < n <= names.len(),
        forall|i: int| #![trigger m0[i]] 0 <= i < m0.len() ==> exists|t: int| #![trigger animates(names, t, m0[i].name)]
            0 <= t < n - 1 && animates(names, t, m0[i].name),
        first_seen_order(names, (n - 1) as nat, m0),
        0 <= i0 < m0.len(),
        c.name == m0[i0].name,
    ensures
        first_seen_order(names, n, m0.update(i0, c)),
{
    reveal(first_seen_order);
    let n0 = (n - 1) as nat;
    let m = m0.update(i0, c);
    assert forall|i: int, j: int, tj: int|
        #![trigger m[i], animates(names, tj, m[j].name)]
        0 <= i < j < m.len() && 0 <= tj < n && animates(names, tj, m[j].name) implies exists|ti: int|
        #![trigger animates(names, ti, m[i].name)]
        0 <= ti < tj && animates(names, ti, m[i].name) by {
        assert(m[i].name == m0[i].name);
        assert(m[j].name == m0[j].name);
        if tj < n0 {
            assert(animates(names, tj, m0[j].name));
            assert(m0[i] == m0[i]);
        } else {
            assert(exists|t: int| #![trigger animates(names, t, m0[i].name)]
                0 <= t < n - 1 && animates(names, t, m0[i].name));
        }
    }
}

/// Starting a channel for a node not animated before keeps the channels in
/// first-seen order.
proof fn lemma_order_new(names: Seq<Seq<char>>, n: nat, m0: Seq<ChannelView>, c: ChannelView)
    requires
        0 < n <= names.len(),
        forall|i: int| #![trigger m0[i]] 0 <= i < m0.len() ==> exists|t: int| #![trigger animates(names, t, m0[i].name)]
            0 <= t < n - 1 && animates(names, t, m0[i].name),
        forall|u: int| 0 <= u < n - 1 ==> #[trigger] names[u] != names[n - 1],
        first_seen_order(names, (n - 1) as nat, m0),
        forall|j: int| 0 <= j < m0.len() ==> #[trigger] m0[j].name != names[n - 1],
        c.name == names[n - 1],
    ensures
        first_seen_order(names, n, m0.push(c)),
{
    reveal(first_seen_order);
    let n0 = (n - 1) as nat;
    let m = m0.push(c);
    assert forall|i: int, j: int, tj: int|
        #![trigger m[i], animates(names, tj, m[j].name)]
        0 <= i < j < m.len() && 0 <= tj < n && animates(names, tj, m[j].name) implies exists|ti: int|
        #![trigger animates(names, ti, m[i].name)]
        0 <= ti < tj && animates(names, ti, m[i].name) by {
        assert(m[i] == m0[i]);
        if j < m0.len() {
            assert(m[j] == m0[j]);
            if tj < n0 {
                assert(animates(names, tj, m0[j].name));
                assert(m0[i] == m0[i]);
            } else {
                assert(m0[j].name != names[n - 1]);
            }
        } else {
            if tj < n0 {
                assert(names[tj] != names[n - 1]);
            } else {
                assert(exists|t: int| #![trigger animates(names, t, m0[i].name)]
                    0 <= t < n - 1 && animates(names, t, m0[i].name));
            }
        }
    }
}

/// Every channel's node is animated by one of the first `n` document
/// channels, when there is one channel per node.
proof fn lemma_channels_animated(names: Seq<Seq<char>>, n: nat, m: Seq<ChannelView>)
    requires
        one_channel_per_node(names, n, m),
    ensures
        forall|i: int| #![trigger m[i]] 0 <= i < m.len() ==> exists|t: int| #![trigger animates(names, t, m[i].name)]
            0 <= t < n && animates(names, t, m[i].name),
{
    reveal(one_channel_per_node);
    assert forall|i: int| #![trigger m[i]] 0 <= i < m.len() implies exists|t: int| #![trigger animates(names, t, m[i].name)]
        0 <= t < n && animates(names, t, m[i].name) by {
        assert(m[i] == m[i]);
        let t = choose|t: int| #![trigger names[t]] 0 <= t < n && names[t] == m[i].name;
        assert(animates(names, t, m[i].name));
    }
}

/// The track of kind `kind` in channel `c` comes from the last supplier
/// among the first `n` document channels: it is `Some(t)` exactly when
/// document channel `t` is the last of them of that kind for `c`'s node, and
/// `None` when none of them is.
pub open spec fn from_last_supplier(
    names: Seq<Seq<char>>,
    kinds: Seq<TrackKind>,
    n: nat,
    c: ChannelView,
    kind: TrackKind,
) -> bool {
    match track_of(c, kind) {
        Some(t) => supplies(names, kinds, n, t as int, c.name, kind) && forall|u: int|
            t < u < n ==> !#[trigger] supplies(names, kinds, n, u, c.name, kind),
        None => forall|u: int| !#[trigger] supplies(names, kinds, n, u, c.name, kind),
    }
}

/// Every translation, rotation and scale track of `m` comes from the last
/// supplier among the first `n` document channels.
#[verifier::opaque]
pub open spec fn last_supplier_tracks(
    names: Seq<Seq<char>>,
    kinds: Seq<TrackKind>,
    n: nat,
    m: Seq<ChannelView>,
) -> bool {
    forall|i: int, kind: TrackKind|
        0 <= i < m.len() && kind != TrackKind::MorphWeights ==> #[trigger] from_last_supplier(
            names,
            kinds,
            n,
            m[i],
            kind,
        )
}

/// Taking the track of one kind from a document channel sets that track and
/// keeps the channel's node and other tracks.
proof fn lemma_with_track(c: ChannelView, kind: TrackKind, t: usize, k: TrackKind)
    ensures
        with_track(c, kind, t).name == c.name,
        track_of(with_track(c, kind, t), k) == (if k == kind && k != TrackKind::MorphWeights {
            Some(t)
        } else {
            track_of(c, k)
        }),
{
    match kind {
        TrackKind::Translation => {},
        TrackKind::Rotation => {},
        TrackKind::Scale => {},
        TrackKind::MorphWeights => {},
    }
    match k {
        TrackKind::Translation => {},
        TrackKind::Rotation => {},
        TrackKind::Scale => {},
        TrackKind::MorphWeights => {},
    }
}

/// A track that document channel `n - 1` does not supply keeps coming from
/// the last supplier.
proof fn lemma_supplier_unchanged(
    names: Seq<Seq<char>>,
    kinds: Seq<TrackKind>,
    n: nat,
    c: ChannelView,
    kind: TrackKind,
)
    requires
        0 < n <= usize::MAX,
        from_last_supplier(names, kinds, (n - 1) as nat, c, kind),
        c.name != names[n - 1] || kind != kinds[n - 1],
    ensures
        from_last_supplier(names, kinds, n, c, kind),
{
    assert forall|u: int|
        supplies(names, kinds, n, u, c.name, kind) implies supplies(
        names,
        kinds,
        (n - 1) as nat,
        u,
        c.name,
        kind,
    ) by {}
}

/// A track of a node that no earlier document channel animates, and that
/// document channel `n - 1` does not supply, is absent.
proof fn lemma_supplier_none(
    names: Seq<Seq<char>>,
    kinds: Seq<TrackKind>,
    n: nat,
    c: ChannelView,
    kind: TrackKind,
)
    requires
        0 < n <= usize::MAX,
        track_of(c, kind) is None,
        forall|u: int| 0 <= u < n - 1 ==> #[trigger] names[u] != c.name,
        c.name != names[n - 1] || kind != kinds[n - 1],
    ensures
        from_last_supplier(names, kinds, n, c, kind),
{
}

/// The channel list after the new document channel `n - 1` added its track
/// to the existing channel `i0` of its node keeps one channel per node.
#[verifier::spinoff_prover]
#[verifier::rlimit(60)]
proof fn lemma_names_existing(
    names: Seq<Seq<char>>,
    n: nat,
    m0: Seq<ChannelView>,
    i0: int,
    c: ChannelView,
)
    requires
        0 < n <= names.len(),
        one_channel_per_node(names, (n - 1) as nat, m0),
        0 <= i0 < m0.len(),
        m0[i0].name == names[n - 1],
        c.name == names[n - 1],
    ensures
        one_channel_per_node(names, n, m0.update(i0, c)),
{
    reveal(one_channel_per_node);
    let n0 = (n - 1) as nat;
    let m = m0.update(i0, c);
    assert forall|tt: int|
        #![trigger names[tt]]
        0 <= tt < n implies exists|i: int| #![trigger m[i]] 0 <= i < m.len() && m[i].name == names[tt] by {
        if tt == n0 {
            assert(m[i0].name == names[tt]);
        } else {
            let i = choose|i: int| #![trigger m0[i]] 0 <= i < m0.len() && m0[i].name == names[tt];
            if i == i0 {
                assert(m[i0].name == names[tt]);
            } else {
                assert(m[i].name == names[tt]);
            }
        }
    }
    assert forall|i: int, j: int| 0 <= i < j < m.len() implies #[trigger] m[i].name
        != #[trigger] m[j].name by {
        assert(m0[i].name != m0[j].name);
        assert(m[i].name == m0[i].name);
        assert(m[j].name == m0[j].name);
    }
    assert forall|i: int|
        #![trigger m[i]]
        0 <= i < m.len() implies exists|tt: int| #![trigger names[tt]] 0 <= tt < n && names[tt] == m[i].name by {
        if i == i0 {
            assert(names[n0 as int] == m[i].name);
        } else {
            assert(m[i] == m0[i]);
            let tt = choose|tt: int| #![trigger names[tt]] 0 <= tt < n0 && names[tt] == m0[i].name;
            assert(names[tt] == m[i].name);
        }
    }
}

/// The tracks after the new document channel `n - 1` added its track to the
/// existing channel `i0` of its node come from their last suppliers.
proof fn lemma_tracks_existing(
    names: Seq<Seq<char>>,
    kinds: Seq<TrackKind>,
    n: nat,
    m0: Seq<ChannelView>,
    i0: int,
)
    requires
        0 < n <= names.len(),
        n <= kinds.len(),
        n <= usize::MAX,
        one_channel_per_node(names, (n - 1) as nat, m0),
        last_supplier_tracks(names, kinds, (n - 1) as nat, m0),
        0 <= i0 < m0.len(),
        m0[i0].name == names[n - 1],
    ensures
        last_supplier_tracks(
            names,
            kinds,
            n,
            m0.update(i0, with_track(m0[i0], kinds[n - 1], (n - 1) as usize)),
        ),
{
    reveal(one_channel_per_node);
    reveal(last_supplier_tracks);
    let n0 = (n - 1) as nat;
    let m = m0.update(i0, with_track(m0[i0], kinds[n - 1], (n - 1) as usize));
    assert forall|i: int, k: TrackKind|
        0 <= i < m.len() && k != TrackKind::MorphWeights implies #[trigger] from_last_supplier(
        names,
        kinds,
        n,
        m[i],
        k,
    ) by {
        assert(from_last_supplier(names, kinds, n0, m0[i], k));
        lemma_with_track(m0[i0], kinds[n - 1], (n - 1) as usize, k);
        if i != i0 {
            assert(m[i] == m0[i]);
            assert(m0[i].name != names[n - 1]) by {
                if i < i0 {
                    assert(m0[i].name != m0[i0].name);
                } else {
                    assert(i0 < i);
                    assert(m0[i0].name != m0[i].name);
                }
            }
            lemma_supplier_unchanged(names, kinds, n, m[i], k);
        } else if k != kinds[n - 1] {
            assert(m[i] == with_track(m0[i0], kinds[n - 1], (n - 1) as usize));
            assert(track_of(with_track(m0[i0], kinds[n - 1], (n - 1) as usize), k) == track_of(m0[i0], k));
            assert(track_of(m[i], k) == track_of(m0[i], k));
            assert(from_last_supplier(names, kinds, n0, m[i], k));
            lemma_supplier_unchanged(names, kinds, n, m[i], k);
        } else {
            assert(m[i] == with_track(m0[i0], kinds[n - 1], (n - 1) as usize));
            assert(track_of(m[i], k) == Some((n - 1) as usize));
        }
    }
}

/// The channel list after the new document channel `n - 1`, whose node had
/// no channel yet, started one keeps one channel per node.
proof fn lemma_names_new(names: Seq<Seq<char>>, n: nat, m0: Seq<ChannelView>, c: ChannelView)
    requires
        0 < n <= names.len(),
        one_channel_per_node(names, (n - 1) as nat, m0),
        forall|j: int| 0 <= j < m0.len() ==> #[trigger] m0[j].name != names[n - 1],
        c.name == names[n - 1],
    ensures
        one_channel_per_node(names, n, m0.push(c)),
        forall|u: int| 0 <= u < n - 1 ==> #[trigger] names[u] != c.name,
{
    reveal(one_channel_per_node);
    let n0 = (n - 1) as nat;
    let m = m0.push(c);
    assert forall|tt: int|
        #![trigger names[tt]]
        0 <= tt < n implies exists|i: int| #![trigger m[i]] 0 <= i < m.len() && m[i].name == names[tt] by {
        if tt == n0 {
            assert(m[m0.len() as int].name == names[tt]);
        } else {
            let i = choose|i: int| #![trigger m0[i]] 0 <= i < m0.len() && m0[i].name == names[tt];
            assert(m[i].name == names[tt]);
        }
    }
    assert forall|i: int, j: int| 0 <= i < j < m.len() implies #[trigger] m[i].name
        != #[trigger] m[j].name by {
        if j == m0.len() {
            assert(m0[i].name != names[n - 1]);
        } else {
            assert(m0[i].name != m0[j].name);
        }
    }
    assert forall|i: int|
        #![trigger m[i]]
        0 <= i < m.len() implies exists|tt: int| #![trigger names[tt]] 0 <= tt < n && names[tt] == m[i].name by {
        if i == m0.len() {
            assert(names[n0 as int] == m[i].name);
        } else {
            let tt = choose|tt: int| #![trigger names[tt]] 0 <= tt < n0 && names[tt] == m0[i].name;
        }
    }
    assert forall|u: int| 0 <= u < n - 1 implies #[trigger] names[u] != c.name by {
        if names[u] == c.name {
            let j = choose|j: int| #![trigger m0[j]] 0 <= j < m0.len() && m0[j].name == names[u];
        }
    }
}

/// The tracks after the new document channel `n - 1`, whose node had no
/// channel yet, started one come from their last suppliers.
proof fn lemma_tracks_new(
    names: Seq<Seq<char>>,
    kinds: Seq<TrackKind>,
    n: nat,
    m0: Seq<ChannelView>,
)
    requires
        0 < n <= names.len(),
        n <= kinds.len(),
        n <= usize::MAX,
        last_supplier_tracks(names, kinds, (n - 1) as nat, m0),
        forall|j: int| 0 <= j < m0.len() ==> #[trigger] m0[j].name != names[n - 1],
        forall|u: int| 0 <= u < n - 1 ==> #[trigger] names[u] != names[n - 1],
    ensures
        last_supplier_tracks(
            names,
            kinds,
            n,
            m0.push(
                with_track(
                    ChannelView { name: names[n - 1], position: None, rotation: None, scale: None },
                    kinds[n - 1],
                    (n - 1) as usize,
                ),
            ),
        ),
{
    reveal(last_supplier_tracks);
    let n0 = (n - 1) as nat;
    let c = with_track(
        ChannelView { name: names[n - 1], position: None, rotation: None, scale: None },
        kinds[n - 1],
        (n - 1) as usize,
    );
    let m = m0.push(c);
    assert(c.name == names[n - 1]) by {
        lemma_with_track(
            ChannelView { name: names[n - 1], position: None, rotation: None, scale: None },
            kinds[n - 1],
            (n - 1) as usize,
            TrackKind::MorphWeights,
        );
    }
    assert forall|i: int, k: TrackKind|
        0 <= i < m.len() && k != TrackKind::MorphWeights implies #[trigger] from_last_supplier(
        names,
        kinds,
        n,
        m[i],
        k,
    ) by {
        if i < m0.len() {
            assert(m[i] == m0[i]);
            assert(from_last_supplier(names, kinds, n0, m0[i], k));
            lemma_supplier_unchanged(names, kinds, n, m[i], k);
        } else if k != kinds[n - 1] {
            lemma_with_track(
                ChannelView { name: names[n - 1], position: None, rotation: None, scale: None },
                kinds[n - 1],
                (n - 1) as usize,
                k,
            );
            lemma_supplier_none(names, kinds, n, m[i], k);
        } else {
            lemma_with_track(
                ChannelView { name: names[n - 1], position: None, rotation: None, scale: None },
                kinds[n - 1],
                (n - 1) as usize,
                k,
            );
            assert(track_of(m[i], k) == Some((n - 1) as usize));
        }
    }
}

/// One step of `law_merged_channels` where document channel `n - 1`'s node
/// already has channel `i0`.
proof fn lemma_merged_step_existing(names: Seq<Seq<char>>, kinds: Seq<TrackKind>, n: nat, i0: int)
    requires
        0 < n <= names.len(),
        n <= kinds.len(),
        n <= usize::MAX,
        one_channel_per_node(names, (n - 1) as nat, merged(names, kinds, (n - 1) as nat)),
        first_seen_order(names, (n - 1) as nat, merged(names, kinds, (n - 1) as nat)),
        last_supplier_tracks(names, kinds, (n - 1) as nat, merged(names, kinds, (n - 1) as nat)),
        find_from(merged(names, kinds, (n - 1) as nat), names[n - 1], 0) == Some(i0),
    ensures
        one_channel_per_node(names, n, merged(names, kinds, n)),
        first_seen_order(names, n, merged(names, kinds, n)),
        last_supplier_tracks(names, kinds, n, merged(names, kinds, n)),
{
    let n0 = (n - 1) as nat;
    let m0 = merged(names, kinds, n0);
    let m = merged(names, kinds, n);
    lemma_find_from(m0, names[n - 1], 0);
    let c = with_track(m0[i0], kinds[n - 1], n0 as usize);
    assert(m == m0.update(i0, c));
    lemma_with_track(m0[i0], kinds[n - 1], n0 as usize, TrackKind::MorphWeights);
    lemma_names_existing(names, n, m0, i0, c);
    lemma_channels_animated(names, n0, m0);
    lemma_order_existing(names, n, m0, i0, c);
    lemma_tracks_existing(names, kinds, n, m0, i0);
}

/// One step of `law_merged_channels` where document channel `n - 1`'s node
/// has no channel yet.
proof fn lemma_merged_step_new(names: Seq<Seq<char>>, kinds: Seq<TrackKind>, n: nat)
    requires
        0 < n <= names.len(),
        n <= kinds.len(),
        n <= usize::MAX,
        one_channel_per_node(names, (n - 1) as nat, merged(names, kinds, (n - 1) as nat)),
        first_seen_order(names, (n - 1) as nat, merged(names, kinds, (n - 1) as nat)),
        last_supplier_tracks(names, kinds, (n - 1) as nat, merged(names, kinds, (n - 1) as nat)),
        find_from(merged(names, kinds, (n - 1) as nat), names[n - 1], 0) is None,
    ensures
        one_channel_per_node(names, n, merged(names, kinds, n)),
        first_seen_order(names, n, merged(names, kinds, n)),
        last_supplier_tracks(names, kinds, n, merged(names, kinds, n)),
{
    let n0 = (n - 1) as nat;
    let m0 = merged(names, kinds, n0);
    let m = merged(names, kinds, n);
    lemma_find_from(m0, names[n - 1], 0);
    let blank = ChannelView { name: names[n - 1], position: None, rotation: None, scale: None };
    let c = with_track(blank, kinds[n - 1], n0 as usize);
    assert(m == m0.push(c));
    lemma_with_track(blank, kinds[n - 1], n0 as usize, TrackKind::MorphWeights);
    lemma_names_new(names, n, m0, c);
    lemma_channels_animated(names, n0, m0);
    lemma_order_new(names, n, m0, c);
    lemma_tracks_new(names, kinds, n, m0);
}

/// Merging channels gives one channel per animated node, in the order in
/// which the nodes are first animated, and each of its tracks comes from the
/// last document channel of that kind for that node: every node that a
/// document channel animates has exactly one channel, and
/// a channel's translation, rotation or scale track is `Some(t)` exactly when
/// document channel `t` is the last one of that kind for its node, `None`
/// when there is none (morph weights give no track).
pub proof fn law_merged_channels(names: Seq<Seq<char>>, kinds: Seq<TrackKind>, n: nat)
    requires
        n <= names.len(),
        n <= kinds.len(),
        n <= usize::MAX,
    ensures
        one_channel_per_node(names, n, merged(names, kinds, n)),
        first_seen_order(names, n, merged(names, kinds, n)),
        last_supplier_tracks(names, kinds, n, merged(names, kinds, n)),
    decreases n,
{
    if n == 0 {
        reveal(one_channel_per_node);
        reveal(first_seen_order);
        reveal(last_supplier_tracks);
    } else {
        let n0 = (n - 1) as nat;
        law_merged_channels(names, kinds, n0);
        match find_from(merged(names, kinds, n0), names[n - 1], 0) {
            Some(i0) => lemma_merged_step_existing(names, kinds, n, i0),
            None => lemma_merged_step_new(names, kinds, n),
        }
    }
}

impl GltfLoader {
    /// Merges a document's animation channels by the name of the node they
    /// animate: channel `t` of the document animates `target_names[t]` with a
    /// track of kind `kinds[t]`.
    pub fn merge_channels(target_names: &Vec<String>, kinds: &Vec<TrackKind>) -> (r: Vec<
        MergedChannel,
    >)
        requires
            target_names@.len() == kinds@.len(),
        ensures
            r@.map_values(|c: MergedChannel| c.view_of()) == merged(
                target_names@.map_values(|s: String| s@),
                kinds@,
                kinds@.len(),
            ),
    {
        let ghost names = target_names@.map_values(|s: String| s@);
        let mut r: Vec<MergedChannel> = Vec::new();
        let mut t: usize = 0;
        while t < kinds.len()
            invariant
                t <= kinds@.len(),
                target_names@.len() == kinds@.len(),
                names == target_names@.map_values(|s: String| s@),
                r@.map_values(|c: MergedChannel| c.view_of()) == merged(names, kinds@, t as nat),
            decreases kinds@.len() - t,
        {
            let ghost m = merged(names, kinds@, t as nat);
            let name = target_names[t].as_str();
            let kind = kinds[t];
            let mut i: usize = 0;
            let mut found: Option<usize> = None;
            while i < r.len()
                invariant
                    i <= r@.len(),
                    r@.map_values(|c: MergedChannel| c.view_of()) == m,
                    name@ == names[t as int],
                    found matches Some(k) ==> k == i && i < r@.len() && m[i as int].name
                        == names[t as int],
                    forall|j: int| 0 <= j < i ==> m[j].name != names[t as int],
                ensures
                    found is None ==> i == r@.len(),
                decreases r@.len() - i,
            {
                if str_eq(r[i].target_name.as_str(), name) {
                    found = Some(i);
                    break;
                }
                i = i + 1;
            }
            proof {
                lemma_find_from(m, names[t as int], 0);
                assert(m.len() == r@.len());
                match found {
                    Some(k) => {
                        assert(find_from(m, names[t as int], 0) == Some(k as int));
                    },
                    None => {
                        assert(find_from(m, names[t as int], 0) is None);
                    },
                }
            }
            match found {
                Some(i) => {
                    let mut c = MergedChannel {
                        target_name: r[i].target_name.clone(),
                        position_track: r[i].position_track,
                        rotation_track: r[i].rotation_track,
                        scale_track: r[i].scale_track,
                    };
                    match kind {
                        TrackKind::Translation => c.position_track = Some(t),
                        TrackKind::Rotation => c.rotation_track = Some(t),
                        TrackKind::Scale => c.scale_track = Some(t),
                        TrackKind::MorphWeights => {},
                    }
                    r.set(i, c);
                },
                None => {
                    let mut c = MergedChannel {
                        target_name: String::from_str(name),
                        position_track: None,
                        rotation_track: None,
                        scale_track: None,
                    };
                    match kind {
                        TrackKind::Translation => c.position_track = Some(t),
                        TrackKind::Rotation => c.rotation_track = Some(t),
                        TrackKind::Scale => c.scale_track = Some(t),
                        TrackKind::MorphWeights => {},
                    }
                    r.push(c);
                },
            }
            proof {
                assert(r@.map_values(|c: MergedChannel| c.view_of()) =~= merged(
                    names,
                    kinds@,
                    (t + 1) as nat,
                ));
            }
            t = t + 1;
        }
        assert(target_names@.len() == kinds@.len());
        r
    }


    /// The indices, among all meshes made from a document, of the meshes of
    /// each node: `primitives[i]` tells, for each primitive of node `i`'s
    /// mesh (none when it has no mesh), whether it carries positions, and
    /// every primitive that does becomes the next mesh.
    pub fn assign_mesh_indices(primitives: &Vec<Vec<bool>>) -> (r: Vec<Vec<usize>>)
        requires
            mesh_lists(primitives@.map_values(|p: Vec<bool>| p@), primitives@.len()).1 <= usize::MAX,
        ensures
            r@.map_values(|l: Vec<usize>| l@) == mesh_lists(
                primitives@.map_values(|p: Vec<bool>| p@),
                primitives@.len(),
            ).0,
    {
        let ghost nodes = primitives@.map_values(|p: Vec<bool>| p@);
        let mut r: Vec<Vec<usize>> = Vec::new();
        let mut count: usize = 0;
        let mut i: usize = 0;
        while i < primitives.len()
            invariant
                i <= primitives@.len(),
                nodes == primitives@.map_values(|p: Vec<bool>| p@),
                mesh_lists(nodes, nodes.len()).1 <= usize::MAX,
                r@.map_values(|l: Vec<usize>| l@) == mesh_lists(nodes, i as nat).0,
                count == mesh_lists(nodes, i as nat).1,
            decreases primitives@.len() - i,
        {
            proof {
                lemma_mesh_lists_grow(nodes, (i + 1) as nat, nodes.len());
            }
            let prims = &primitives[i];
            let ghost p = nodes[i as int];
            assert(prims@ == p);
            let mut list: Vec<usize> = Vec::new();
            let mut j: usize = 0;
            while j < prims.len()
                invariant
                    j <= prims@.len(),
                    prims@ == p,
                    (list@, count as nat) == node_meshes(
                        p,
                        mesh_lists(nodes, i as nat).1,
                        j as nat,
                    ),
                    node_meshes(p, mesh_lists(nodes, i as nat).1, p.len()).1 <= usize::MAX,
                decreases prims@.len() - j,
            {
                proof {
                    lemma_node_meshes_grow(p, mesh_lists(nodes, i as nat).1, (j + 1) as nat);
                    lemma_node_meshes_grow_prefix(p, mesh_lists(nodes, i as nat).1, (j + 1) as nat, p.len());
                }
                if prims[j] {
                    list.push(count);
                    count = count + 1;
                }
                j = j + 1;
            }
            r.push(list);
            proof {
                assert(r@.map_values(|l: Vec<usize>| l@) =~= mesh_lists(nodes, (i + 1) as nat).0);
            }
            i = i + 1;
        }
        r
    }
}

/// A node of a glTF document as the editor rebuilds the scene from it: its
/// name, its index in the document, its local transform (of the caller's
/// transform type), the indices of the meshes made from its primitives, its
/// skin and the indices of its children.
#[derive(Debug, Clone)]
pub struct GltfNode<T> {
    pub name: String,
    pub index: usize,
    pub local_transform: T,
    pub mesh_indices: Vec<usize>,
    pub skin_index: Option<usize>,
    pub children: Vec<usize>,
}

/// The name a node gets: its own, or "Node_" and its index.
pub open spec fn node_name(name: Option<String>, index: nat) -> Seq<char> {
    match name {
        Some(n) => n@,
        None => "Node_"@ + decimal(index),
    }
}

/// A copy of the list.
fn copy_usizes(v: &Vec<usize>) -> (r: Vec<usize>)
    ensures
        r@ == v@,
{
    let mut r: Vec<usize> = Vec::new();
    let mut i: usize = 0;
    while i < v.len()
        invariant
            i <= v@.len(),
            r@ == v@.take(i as int),
        decreases v@.len() - i,
    {
        r.push(v[i]);
        i = i + 1;
        assert(r@ =~= v@.take(i as int));
    }
    assert(v@.take(v@.len() as int) =~= v@);
    r
}

impl GltfLoader {
    /// The nodes of a document, node `i` described by `names[i]` (its own
    /// name, if it has one), `transforms[i]`, `primitives[i]` (for each
    /// primitive of its mesh, whether it carries positions), `skins[i]` and
    /// `children[i]`.
    pub fn build_nodes<T: Copy>(
        names: &Vec<Option<String>>,
        transforms: &Vec<T>,
        primitives: &Vec<Vec<bool>>,
        skins: &Vec<Option<usize>>,
        children: &Vec<Vec<usize>>,
    ) -> (r: Vec<GltfNode<T>>)
        requires
            transforms@.len() == names@.len(),
            primitives@.len() == names@.len(),
            skins@.len() == names@.len(),
            children@.len() == names@.len(),
            mesh_lists(primitives@.map_values(|p: Vec<bool>| p@), primitives@.len()).1 <= usize::MAX,
        ensures
            r@.len() == names@.len(),
            forall|i: int|
                #![trigger r@[i]]
                0 <= i < r@.len() ==> {
                    &&& r@[i].name@ == node_name(names@[i], i as nat)
                    &&& r@[i].index == i
                    &&& r@[i].local_transform == transforms@[i]
                    &&& r@[i].mesh_indices@ == mesh_lists(
                        primitives@.map_values(|p: Vec<bool>| p@),
                        primitives@.len(),
                    ).0[i]
                    &&& r@[i].skin_index == skins@[i]
                    &&& r@[i].children@ == children@[i]@
                    &&& forall|t: int|
                        0 <= t < r@[i].mesh_indices@.len() ==> #[trigger] r@[i].mesh_indices@[t]
                            < mesh_lists(
                            primitives@.map_values(|p: Vec<bool>| p@),
                            primitives@.len(),
                        ).1
                },
    {
        let lists = Self::assign_mesh_indices(primitives);
        let ghost ml = mesh_lists(primitives@.map_values(|p: Vec<bool>| p@), primitives@.len()).0;
        proof {
            let nodes = primitives@.map_values(|p: Vec<bool>| p@);
            lemma_mesh_lists_grow(nodes, nodes.len(), nodes.len());
            assert(lists@.map_values(|l: Vec<usize>| l@).len() == lists@.len());
        }
        let mut r: Vec<GltfNode<T>> = Vec::new();
        let mut i: usize = 0;
        while i < names.len()
            invariant
                i <= names@.len(),
                transforms@.len() == names@.len(),
                skins@.len() == names@.len(),
                children@.len() == names@.len(),
                lists@.len() == names@.len(),
                lists@.map_values(|l: Vec<usize>| l@) == ml,
                r@.len() == i,
                forall|j: int|
                    #![trigger r@[j]]
                    0 <= j < i ==> {
                        &&& r@[j].name@ == node_name(names@[j], j as nat)
                        &&& r@[j].index == j
                        &&& r@[j].local_transform == transforms@[j]
                        &&& r@[j].mesh_indices@ == ml[j]
                        &&& r@[j].skin_index == skins@[j]
                        &&& r@[j].children@ == children@[j]@
                    },
            decreases names@.len() - i,
        {
            let name = match &names[i] {
                Some(n) => name_or_default(Some(n.as_str()), "Node_", i),
                None => name_or_default(None, "Node_", i),
            };
            let mesh_indices = copy_usizes(&lists[i]);
            assert(mesh_indices@ == ml[i as int]);
            let node = GltfNode {
                name,
                index: i,
                local_transform: transforms[i],
                mesh_indices,
                skin_index: skins[i],
                children: copy_usizes(&children[i]),
            };
            r.push(node);
            i = i + 1;
        }
        proof {
            let nodes = primitives@.map_values(|p: Vec<bool>| p@);
            assert forall|j: int, t: int|
                0 <= j < r@.len() && 0 <= t < r@[j].mesh_indices@.len() implies #[trigger] r@[j].mesh_indices@[t]
                < mesh_lists(nodes, nodes.len()).1 by {
                lemma_mesh_lists_range(nodes, nodes.len(), j, t);
            }
        }
        r
    }
}

proof fn lemma_node_meshes_grow_prefix(prims: Seq<bool>, start: nat, k: nat, m: nat)
    requires
        k <= m,
    ensures
        node_meshes(prims, start, k).1 <= node_meshes(prims, start, m).1,
    decreases m,
{
    if m > k {
        lemma_node_meshes_grow_prefix(prims, start, k, (m - 1) as nat);
    }
}

} // verus!

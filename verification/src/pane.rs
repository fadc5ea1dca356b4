use vstd::prelude::*;
use crate::id::new_id;

verus! {

/// Identifier of a terminal session (the 128-bit value of its UUID).
pub type SessionId = u128;

/// The test that keeps every session but `target`.
pub open spec fn other_than(target: SessionId) -> spec_fn(SessionId) -> bool {
    |x: SessionId| x != target
}

/// Bit pattern of the `f32` value 0.5, the ratio a fresh split starts with.
pub const HALF_RATIO_BITS: u32 = 0x3f00_0000u32;

/// Bit pattern of the `f32` value 0.1, the smallest ratio a split is given.
pub const MIN_RATIO_BITS: u32 = 0x3dcc_cccdu32;

/// Bit pattern of the `f32` value 0.9, the largest ratio a split is given.
pub const MAX_RATIO_BITS: u32 = 0x3f66_6666u32;

/// The bit pattern of the `f32` whose pattern is `bits`, clamped to [0.1, 0.9]
/// as `f32::clamp` does: NaN stays NaN; a negative value (sign bit set) gives
/// 0.1; positive values order as their bit patterns do.
pub open spec fn clamped_ratio(bits: u32) -> u32 {
    if bits & 0x7fff_ffffu32 > 0x7f80_0000u32 {
        bits
    } else if bits >= 0x8000_0000u32 {
        MIN_RATIO_BITS
    } else if bits < MIN_RATIO_BITS {
        MIN_RATIO_BITS
    } else if bits > MAX_RATIO_BITS {
        MAX_RATIO_BITS
    } else {
        bits
    }
}

/// Clamps the ratio whose `f32` bit pattern is `bits` to [0.1, 0.9].
pub fn clamp_ratio_bits(bits: u32) -> (r: u32)
    ensures
        r == clamped_ratio(bits),
{
    if bits & 0x7fff_ffffu32 > 0x7f80_0000u32 {
        bits
    } else if bits >= 0x8000_0000u32 {
        MIN_RATIO_BITS
    } else if bits < MIN_RATIO_BITS {
        MIN_RATIO_BITS
    } else if bits > MAX_RATIO_BITS {
        MAX_RATIO_BITS
    } else {
        bits
    }
}

/// The layout of the panes of one tab: a binary tree whose leaves are terminals.
///
/// A split's ratio is carried as the bit pattern of its `f32` value; the library
/// never computes with it, it only keeps it or replaces it.
#[derive(Debug)]
pub enum PaneTree {
    Terminal(SessionId),
    HSplit { ratio_bits: u32, left: Box<PaneTree>, right: Box<PaneTree> },
    VSplit { ratio_bits: u32, top: Box<PaneTree>, bottom: Box<PaneTree> },
}

impl PaneTree {
    /// The sessions of the tree's terminals, from left to right (top to bottom).
    pub open spec fn leaves(self) -> Seq<SessionId>
        decreases self,
    {
        match self {
            PaneTree::Terminal(id) => seq![id],
            PaneTree::HSplit { left, right, .. } => left.leaves() + right.leaves(),
            PaneTree::VSplit { top, bottom, .. } => top.leaves() + bottom.leaves(),
        }
    }

    /// The tree in which every terminal showing `target` is replaced by `with`.
    pub open spec fn replace_leaf(self, target: SessionId, with: PaneTree) -> PaneTree
        decreases self,
    {
        match self {
            PaneTree::Terminal(id) => if id == target { with } else { self },
            PaneTree::HSplit { ratio_bits, left, right } => PaneTree::HSplit {
                ratio_bits,
                left: Box::new(left.replace_leaf(target, with)),
                right: Box::new(right.replace_leaf(target, with)),
            },
            PaneTree::VSplit { ratio_bits, top, bottom } => PaneTree::VSplit {
                ratio_bits,
                top: Box::new(top.replace_leaf(target, with)),
                bottom: Box::new(bottom.replace_leaf(target, with)),
            },
        }
    }

    /// The side-by-side pair that a horizontal split of `target` puts in its place.
    pub open spec fn h_pair(target: SessionId, new_session: SessionId) -> PaneTree {
        PaneTree::HSplit {
            ratio_bits: HALF_RATIO_BITS,
            left: Box::new(PaneTree::Terminal(target)),
            right: Box::new(PaneTree::Terminal(new_session)),
        }
    }

    /// The stacked pair that a vertical split of `target` puts in its place.
    pub open spec fn v_pair(target: SessionId, new_session: SessionId) -> PaneTree {
        PaneTree::VSplit {
            ratio_bits: HALF_RATIO_BITS,
            top: Box::new(PaneTree::Terminal(target)),
            bottom: Box::new(PaneTree::Terminal(new_session)),
        }
    }

    /// The tree left after removing every terminal showing `target`: a split that
    /// loses one side is replaced by the other side; `None` when nothing remains.
    pub open spec fn pruned(self, target: SessionId) -> Option<PaneTree>
        decreases self,
    {
        match self {
            PaneTree::Terminal(id) => if id == target { None } else { Some(self) },
            PaneTree::HSplit { ratio_bits, left, right } => {
                match (left.pruned(target), right.pruned(target)) {
                    (None, None) => None,
                    (Some(l), None) => Some(l),
                    (None, Some(r)) => Some(r),
                    (Some(l), Some(r)) => Some(
                        PaneTree::HSplit { ratio_bits, left: Box::new(l), right: Box::new(r) },
                    ),
                }
            },
            PaneTree::VSplit { ratio_bits, top, bottom } => {
                match (top.pruned(target), bottom.pruned(target)) {
                    (None, None) => None,
                    (Some(t), None) => Some(t),
                    (None, Some(b)) => Some(b),
                    (Some(t), Some(b)) => Some(
                        PaneTree::VSplit { ratio_bits, top: Box::new(t), bottom: Box::new(b) },
                    ),
                }
            },
        }
    }

    /// The tree in which the splits nearest the root that hold `target` get the
    /// ratio `bits`; splits above them and all other splits keep theirs.
    pub open spec fn with_ratio(self, target: SessionId, bits: u32) -> PaneTree
        decreases self,
    {
        match self {
            PaneTree::Terminal(_) => self,
            PaneTree::HSplit { ratio_bits, left, right } => {
                if left.leaves().contains(target) || right.leaves().contains(target) {
                    PaneTree::HSplit { ratio_bits: bits, left, right }
                } else {
                    PaneTree::HSplit {
                        ratio_bits,
                        left: Box::new(left.with_ratio(target, bits)),
                        right: Box::new(right.with_ratio(target, bits)),
                    }
                }
            },
            PaneTree::VSplit { ratio_bits, top, bottom } => {
                if top.leaves().contains(target) || bottom.leaves().contains(target) {
                    PaneTree::VSplit { ratio_bits: bits, top, bottom }
                } else {
                    PaneTree::VSplit {
                        ratio_bits,
                        top: Box::new(top.with_ratio(target, bits)),
                        bottom: Box::new(bottom.with_ratio(target, bits)),
                    }
                }
            },
        }
    }

    /// All sessions shown in the tree, in order.
    pub fn sessions(&self) -> (ids: Vec<SessionId>)
        ensures
            ids@ == self.leaves(),
        decreases self,
    {
        match self {
            PaneTree::Terminal(id) => {
                let mut v: Vec<SessionId> = Vec::new();
                v.push(*id);
                v
            },
            PaneTree::HSplit { left, right, .. } => {
                let mut ids = left.sessions();
                let mut rest = right.sessions();
                ids.append(&mut rest);
                ids
            },
            PaneTree::VSplit { top, bottom, .. } => {
                let mut ids = top.sessions();
                let mut rest = bottom.sessions();
                ids.append(&mut rest);
                ids
            },
        }
    }

    /// Splits every pane showing `target` side by side with a new pane for `new_session`.
    pub fn split_h_at(self, target: SessionId, new_session: SessionId) -> (r: PaneTree)
        ensures
            r == self.replace_leaf(target, PaneTree::h_pair(target, new_session)),
        decreases self,
    {
        match self {
            PaneTree::Terminal(id) => {
                if id == target {
                    PaneTree::HSplit {
                        ratio_bits: HALF_RATIO_BITS,
                        left: Box::new(PaneTree::Terminal(id)),
                        right: Box::new(PaneTree::Terminal(new_session)),
                    }
                } else {
                    PaneTree::Terminal(id)
                }
            },
            PaneTree::HSplit { ratio_bits, left, right } => PaneTree::HSplit {
                ratio_bits,
                left: Box::new((*left).split_h_at(target, new_session)),
                right: Box::new((*right).split_h_at(target, new_session)),
            },
            PaneTree::VSplit { ratio_bits, top, bottom } => PaneTree::VSplit {
                ratio_bits,
                top: Box::new((*top).split_h_at(target, new_session)),
                bottom: Box::new((*bottom).split_h_at(target, new_session)),
            },
        }
    }

    /// Splits every pane showing `target` into a top pane and a new bottom pane for `new_session`.
    pub fn split_v_at(self, target: SessionId, new_session: SessionId) -> (r: PaneTree)
        ensures
            r == self.replace_leaf(target, PaneTree::v_pair(target, new_session)),
        decreases self,
    {
        match self {
            PaneTree::Terminal(id) => {
                if id == target {
                    PaneTree::VSplit {
                        ratio_bits: HALF_RATIO_BITS,
                        top: Box::new(PaneTree::Terminal(id)),
                        bottom: Box::new(PaneTree::Terminal(new_session)),
                    }
                } else {
                    PaneTree::Terminal(id)
                }
            },
            PaneTree::HSplit { ratio_bits, left, right } => PaneTree::HSplit {
                ratio_bits,
                left: Box::new((*left).split_v_at(target, new_session)),
                right: Box::new((*right).split_v_at(target, new_session)),
            },
            PaneTree::VSplit { ratio_bits, top, bottom } => PaneTree::VSplit {
                ratio_bits,
                top: Box::new((*top).split_v_at(target, new_session)),
                bottom: Box::new((*bottom).split_v_at(target, new_session)),
            },
        }
    }

    /// Closes every pane showing `target`; `None` when the whole tree is closed.
    pub fn close_pane(self, target: SessionId) -> (r: Option<PaneTree>)
        ensures
            r == self.pruned(target),
            r is None <==> (forall|i: int| 0 <= i < self.leaves().len() ==> self.leaves()[i] == target),
            r matches Some(t) ==> t.leaves() == self.leaves().filter(other_than(target)),
        decreases self,
    {
        proof {
            lemma_pruned_leaves(self, target);
        }
        match self {
            PaneTree::Terminal(id) => {
                if id == target {
                    None
                } else {
                    Some(PaneTree::Terminal(id))
                }
            },
            PaneTree::HSplit { ratio_bits, left, right } => {
                match ((*left).close_pane(target), (*right).close_pane(target)) {
                    (None, None) => None,
                    (Some(l), None) => Some(l),
                    (None, Some(r)) => Some(r),
                    (Some(l), Some(r)) => Some(
                        PaneTree::HSplit { ratio_bits, left: Box::new(l), right: Box::new(r) },
                    ),
                }
            },
            PaneTree::VSplit { ratio_bits, top, bottom } => {
                match ((*top).close_pane(target), (*bottom).close_pane(target)) {
                    (None, None) => None,
                    (Some(t), None) => Some(t),
                    (None, Some(b)) => Some(b),
                    (Some(t), Some(b)) => Some(
                        PaneTree::VSplit { ratio_bits, top: Box::new(t), bottom: Box::new(b) },
                    ),
                }
            },
        }
    }

    /// Gives the splits nearest the root that hold `target` the ratio whose
    /// `f32` bit pattern is `ratio_bits`, clamped to [0.1, 0.9].
    pub fn set_ratio_for(self, target: SessionId, ratio_bits: u32) -> (r: PaneTree)
        ensures
            r == self.with_ratio(target, clamped_ratio(ratio_bits)),
            r.leaves() == self.leaves(),
    {
        self.put_ratio(target, clamp_ratio_bits(ratio_bits))
    }

    /// Gives the splits nearest the root that hold `target` the ratio `ratio_bits`.
    fn put_ratio(self, target: SessionId, ratio_bits: u32) -> (r: PaneTree)
        ensures
            r == self.with_ratio(target, ratio_bits),
            r.leaves() == self.leaves(),
        decreases self,
    {
        proof {
            lemma_with_ratio_leaves(self, target, ratio_bits);
        }
        match self {
            PaneTree::Terminal(id) => PaneTree::Terminal(id),
            PaneTree::HSplit { ratio_bits: old_bits, left, right } => {
                if left.contains(target) || right.contains(target) {
                    PaneTree::HSplit { ratio_bits, left, right }
                } else {
                    PaneTree::HSplit {
                        ratio_bits: old_bits,
                        left: Box::new((*left).put_ratio(target, ratio_bits)),
                        right: Box::new((*right).put_ratio(target, ratio_bits)),
                    }
                }
            },
            PaneTree::VSplit { ratio_bits: old_bits, top, bottom } => {
                if top.contains(target) || bottom.contains(target) {
                    PaneTree::VSplit { ratio_bits, top, bottom }
                } else {
                    PaneTree::VSplit {
                        ratio_bits: old_bits,
                        top: Box::new((*top).put_ratio(target, ratio_bits)),
                        bottom: Box::new((*bottom).put_ratio(target, ratio_bits)),
                    }
                }
            },
        }
    }

    /// Whether some pane of the tree shows `target`.
    pub fn contains(&self, target: SessionId) -> (b: bool)
        ensures
            b == self.leaves().contains(target),
    {
        let ids = self.sessions();
        let mut i: usize = 0;
        while i < ids.len()
            invariant
                ids@ == self.leaves(),
                0 <= i <= ids.len(),
                forall|j: int| 0 <= j < i ==> ids@[j] != target,
            decreases ids.len() - i,
        {
            if ids[i] == target {
                return true;
            }
            i = i + 1;
        }
        false
    }
}

/// A tab of the window: a layout of panes, the pane that has the focus, and
/// the alias of the host it was opened for.
#[derive(Debug)]
pub struct Tab {
    pub id: u128,
    pub title: String,
    pub pane_tree: PaneTree,
    pub active_pane: SessionId,
    pub host_alias: String,
}

impl Tab {
    /// A tab with a fresh identifier showing the one session `session_id`.
    pub fn new(title: &str, host_alias: &str, session_id: SessionId) -> (t: Tab)
        ensures
            t.title@ == title@,
            t.host_alias@ == host_alias@,
            t.pane_tree == PaneTree::Terminal(session_id),
            t.active_pane == session_id,
    {
        let t = Tab {
            id: new_id(),
            title: title.to_string(),
            pane_tree: PaneTree::Terminal(session_id),
            active_pane: session_id,
            host_alias: host_alias.to_string(),
        };
        proof {
            vstd::string::to_string_from_display_ensures_for_str(title, t.title);
            vstd::string::to_string_from_display_ensures_for_str(host_alias, t.host_alias);
        }
        t
    }
}

/// Removing `target` keeps the other sessions in order, and removes the whole
/// tree exactly when it shows nothing but `target`.
pub proof fn lemma_pruned_leaves(t: PaneTree, target: SessionId)
    ensures
        t.pruned(target) is None <==> (forall|i: int| 0 <= i < t.leaves().len() ==> t.leaves()[i] == target),
        t.pruned(target) matches Some(p) ==> p.leaves() == t.leaves().filter(other_than(target)),
    decreases t,
{
    match t {
        PaneTree::Terminal(id) => {
            let e = Seq::<SessionId>::empty();
            e.lemma_filter_push(id, other_than(target));
            assert(e.push(id) =~= seq![id]);
            e.lemma_filter_len(other_than(target));
            assert(t.leaves() =~= seq![id]);
            assert(t.leaves().len() == 1);
            if id == target {
                assert(t.pruned(target) is None);
                assert forall|i: int| 0 <= i < t.leaves().len() implies t.leaves()[i] == target by {
                    assert(i == 0);
                }
            } else {
                assert(t.pruned(target) is Some);
                assert(t.leaves()[0] != target);
            }
        },
        PaneTree::HSplit { left, right, .. } => {
            lemma_pruned_leaves(*left, target);
            lemma_pruned_leaves(*right, target);
            Seq::filter_distributes_over_add(left.leaves(), right.leaves(), other_than(target));
            lemma_all_equal_split(left.leaves(), right.leaves(), target);
            lemma_filter_empty_iff(left.leaves(), target);
            lemma_filter_empty_iff(right.leaves(), target);
        },
        PaneTree::VSplit { top, bottom, .. } => {
            lemma_pruned_leaves(*top, target);
            lemma_pruned_leaves(*bottom, target);
            Seq::filter_distributes_over_add(top.leaves(), bottom.leaves(), other_than(target));
            lemma_all_equal_split(top.leaves(), bottom.leaves(), target);
            lemma_filter_empty_iff(top.leaves(), target);
            lemma_filter_empty_iff(bottom.leaves(), target);
        },
    }
}

/// All sessions of two lists are `target` exactly when all of each list are.
proof fn lemma_all_equal_split(a: Seq<SessionId>, b: Seq<SessionId>, target: SessionId)
    ensures
        (forall|i: int| 0 <= i < (a + b).len() ==> (a + b)[i] == target) <==> (
            (forall|i: int| 0 <= i < a.len() ==> a[i] == target)
            && (forall|i: int| 0 <= i < b.len() ==> b[i] == target)),
{
    if forall|i: int| 0 <= i < (a + b).len() ==> (a + b)[i] == target {
        assert forall|i: int| 0 <= i < a.len() implies a[i] == target by {
            assert((a + b)[i] == a[i]);
        }
        assert forall|i: int| 0 <= i < b.len() implies b[i] == target by {
            assert((a + b)[a.len() + i] == b[i]);
        }
    }
}

/// Dropping `target` empties a list exactly when every session of it is `target`.
proof fn lemma_filter_empty_iff(s: Seq<SessionId>, target: SessionId)
    ensures
        s.filter(other_than(target)).len() == 0 <==> (forall|i: int| 0 <= i < s.len() ==> s[i] == target),
    decreases s.len(),
{
    if s.len() == 0 {
        s.lemma_filter_len(other_than(target));
    } else {
        let d = s.drop_last();
        lemma_filter_empty_iff(d, target);
        assert(d.push(s.last()) =~= s);
        d.lemma_filter_push(s.last(), other_than(target));
        assert forall|i: int| 0 <= i < d.len() implies d[i] == s[i] by {}
        if forall|i: int| 0 <= i < s.len() ==> s[i] == target {
            assert(s[s.len() - 1] == target);
            assert forall|i: int| 0 <= i < d.len() implies d[i] == target by {
                assert(s[i] == target);
            }
        }
        if s.filter(other_than(target)).len() == 0 {
            assert forall|i: int| 0 <= i < s.len() implies s[i] == target by {
                if i < d.len() {
                    assert(d[i] == target);
                }
            }
        }
    }
}

/// Changing a ratio never changes which sessions the tree shows.
pub proof fn lemma_with_ratio_leaves(t: PaneTree, target: SessionId, bits: u32)
    ensures
        t.with_ratio(target, bits).leaves() == t.leaves(),
    decreases t,
{
    match t {
        PaneTree::Terminal(_) => {},
        PaneTree::HSplit { left, right, .. } => {
            lemma_with_ratio_leaves(*left, target, bits);
            lemma_with_ratio_leaves(*right, target, bits);
        },
        PaneTree::VSplit { top, bottom, .. } => {
            lemma_with_ratio_leaves(*top, target, bits);
            lemma_with_ratio_leaves(*bottom, target, bits);
        },
    }
}

/// The sessions a split leaves: each `target` followed by `new_session`.
pub open spec fn expand(s: Seq<SessionId>, target: SessionId, new_session: SessionId) -> Seq<SessionId>
    decreases s.len(),
{
    if s.len() == 0 {
        s
    } else {
        expand(s.drop_last(), target, new_session) + if s.last() == target {
            seq![target, new_session]
        } else {
            seq![s.last()]
        }
    }
}

/// After a split at a session that is shown, the new session is shown.
pub proof fn lemma_expand_shows_new(s: Seq<SessionId>, target: SessionId, new_session: SessionId)
    requires
        s.contains(target),
    ensures
        expand(s, target, new_session).contains(new_session),
    decreases s.len(),
{
    let d = s.drop_last();
    let tail = if s.last() == target { seq![target, new_session] } else { seq![s.last()] };
    let e = expand(s, target, new_session);
    assert(e == expand(d, target, new_session) + tail);
    if s.last() == target {
        assert(e[e.len() - 1] == new_session);
    } else {
        let i = choose|i: int| 0 <= i < s.len() && s[i] == target;
        assert(i < s.len() - 1);
        assert(d[i] == target);
        lemma_expand_shows_new(d, target, new_session);
        let de = expand(d, target, new_session);
        let j = choose|j: int| 0 <= j < de.len() && de[j] == new_session;
        assert(e[j] == new_session);
    }
}

/// Putting the new session after each `target` distributes over concatenation.
proof fn lemma_expand_add(a: Seq<SessionId>, b: Seq<SessionId>, target: SessionId, new_session: SessionId)
    ensures
        expand(a + b, target, new_session) == expand(a, target, new_session) + expand(b, target, new_session),
    decreases b.len(),
{
    if b.len() == 0 {
        assert(a + b =~= a);
        assert(expand(a, target, new_session) + expand(b, target, new_session) =~= expand(a, target, new_session));
    } else {
        assert((a + b).drop_last() =~= a + b.drop_last());
        assert((a + b).last() == b.last());
        lemma_expand_add(a, b.drop_last(), target, new_session);
        let tail = if b.last() == target { seq![target, new_session] } else { seq![b.last()] };
        assert(expand(a, target, new_session) + expand(b.drop_last(), target, new_session) + tail
            =~= expand(a, target, new_session) + (expand(b.drop_last(), target, new_session) + tail));
    }
}

/// Putting the new session after each `target` in a one-session list.
proof fn lemma_expand_single(x: SessionId, target: SessionId, new_session: SessionId)
    ensures
        expand(seq![x], target, new_session) == if x == target { seq![target, new_session] } else { seq![x] },
{
    reveal_with_fuel(expand, 2);
    assert(seq![x].drop_last() =~= Seq::<SessionId>::empty());
    assert(seq![x].last() == x);
    let tail = if x == target { seq![target, new_session] } else { seq![x] };
    assert(Seq::<SessionId>::empty() + tail =~= tail);
}

/// Splitting the pane of `target` horizontally puts `new_session` right after
/// each occurrence of `target` in the order of sessions, and changes nothing else.
pub proof fn law_split_h_sessions(t: PaneTree, target: SessionId, new_session: SessionId)
    ensures
        t.replace_leaf(target, PaneTree::h_pair(target, new_session)).leaves()
            == expand(t.leaves(), target, new_session),
    decreases t,
{
    match t {
        PaneTree::Terminal(id) => {
            lemma_expand_single(id, target, new_session);
            reveal_with_fuel(PaneTree::leaves, 2);
            assert(PaneTree::h_pair(target, new_session).leaves() =~= seq![target, new_session]);
        },
        PaneTree::HSplit { left, right, .. } => {
            law_split_h_sessions(*left, target, new_session);
            law_split_h_sessions(*right, target, new_session);
            lemma_expand_add(left.leaves(), right.leaves(), target, new_session);
        },
        PaneTree::VSplit { top, bottom, .. } => {
            law_split_h_sessions(*top, target, new_session);
            law_split_h_sessions(*bottom, target, new_session);
            lemma_expand_add(top.leaves(), bottom.leaves(), target, new_session);
        },
    }
}

/// Splitting the pane of `target` vertically puts `new_session` right after
/// each occurrence of `target` in the order of sessions, and changes nothing else.
pub proof fn law_split_v_sessions(t: PaneTree, target: SessionId, new_session: SessionId)
    ensures
        t.replace_leaf(target, PaneTree::v_pair(target, new_session)).leaves()
            == expand(t.leaves(), target, new_session),
    decreases t,
{
    match t {
        PaneTree::Terminal(id) => {
            lemma_expand_single(id, target, new_session);
            reveal_with_fuel(PaneTree::leaves, 2);
            assert(PaneTree::v_pair(target, new_session).leaves() =~= seq![target, new_session]);
        },
        PaneTree::HSplit { left, right, .. } => {
            law_split_v_sessions(*left, target, new_session);
            law_split_v_sessions(*right, target, new_session);
            lemma_expand_add(left.leaves(), right.leaves(), target, new_session);
        },
        PaneTree::VSplit { top, bottom, .. } => {
            law_split_v_sessions(*top, target, new_session);
            law_split_v_sessions(*bottom, target, new_session);
            lemma_expand_add(top.leaves(), bottom.leaves(), target, new_session);
        },
    }
}

/// Splitting at a session that the tree does not show leaves the tree as it was.
pub proof fn law_split_absent_is_identity(t: PaneTree, target: SessionId, with: PaneTree)
    requires
        !t.leaves().contains(target),
    ensures
        t.replace_leaf(target, with) == t,
    decreases t,
{
    match t {
        PaneTree::Terminal(id) => {
            assert(t.leaves()[0] == id);
        },
        PaneTree::HSplit { left, right, .. } => {
            lemma_contains_add(left.leaves(), right.leaves(), target);
            law_split_absent_is_identity(*left, target, with);
            law_split_absent_is_identity(*right, target, with);
        },
        PaneTree::VSplit { top, bottom, .. } => {
            lemma_contains_add(top.leaves(), bottom.leaves(), target);
            law_split_absent_is_identity(*top, target, with);
            law_split_absent_is_identity(*bottom, target, with);
        },
    }
}

/// A session is in two lists joined exactly when it is in one of them.
proof fn lemma_contains_add(a: Seq<SessionId>, b: Seq<SessionId>, x: SessionId)
    ensures
        (a + b).contains(x) <==> (a.contains(x) || b.contains(x)),
{
    if a.contains(x) {
        let i = choose|i: int| 0 <= i < a.len() && a[i] == x;
        assert((a + b)[i] == x);
    }
    if b.contains(x) {
        let i = choose|i: int| 0 <= i < b.len() && b[i] == x;
        assert((a + b)[a.len() + i] == x);
    }
    if (a + b).contains(x) {
        let i = choose|i: int| 0 <= i < (a + b).len() && (a + b)[i] == x;
        if i < a.len() {
            assert(a[i] == x);
        } else {
            assert(b[i - a.len()] == x);
        }
    }
}

/// Closing a session that the tree does not show leaves the tree as it was.
pub proof fn law_close_absent_is_identity(t: PaneTree, target: SessionId)
    requires
        !t.leaves().contains(target),
    ensures
        t.pruned(target) == Some(t),
    decreases t,
{
    match t {
        PaneTree::Terminal(id) => {
            assert(t.leaves()[0] == id);
        },
        PaneTree::HSplit { left, right, .. } => {
            lemma_contains_add(left.leaves(), right.leaves(), target);
            law_close_absent_is_identity(*left, target);
            law_close_absent_is_identity(*right, target);
        },
        PaneTree::VSplit { top, bottom, .. } => {
            lemma_contains_add(top.leaves(), bottom.leaves(), target);
            law_close_absent_is_identity(*top, target);
            law_close_absent_is_identity(*bottom, target);
        },
    }
}

/// Closing the pane that a horizontal split opened gives back the tree as it was
/// before the split, provided the new session was not shown already.
pub proof fn law_close_undoes_split_h(t: PaneTree, target: SessionId, new_session: SessionId)
    requires
        !t.leaves().contains(new_session),
    ensures
        t.replace_leaf(target, PaneTree::h_pair(target, new_session)).pruned(new_session) == Some(t),
    decreases t,
{
    match t {
        PaneTree::Terminal(id) => {
            assert(t.leaves()[0] == id);
            reveal_with_fuel(PaneTree::pruned, 2);
        },
        PaneTree::HSplit { left, right, .. } => {
            lemma_contains_add(left.leaves(), right.leaves(), new_session);
            law_close_undoes_split_h(*left, target, new_session);
            law_close_undoes_split_h(*right, target, new_session);
        },
        PaneTree::VSplit { top, bottom, .. } => {
            lemma_contains_add(top.leaves(), bottom.leaves(), new_session);
            law_close_undoes_split_h(*top, target, new_session);
            law_close_undoes_split_h(*bottom, target, new_session);
        },
    }
}

/// Closing the pane that a vertical split opened gives back the tree as it was
/// before the split, provided the new session was not shown already.
pub proof fn law_close_undoes_split_v(t: PaneTree, target: SessionId, new_session: SessionId)
    requires
        !t.leaves().contains(new_session),
    ensures
        t.replace_leaf(target, PaneTree::v_pair(target, new_session)).pruned(new_session) == Some(t),
    decreases t,
{
    match t {
        PaneTree::Terminal(id) => {
            assert(t.leaves()[0] == id);
            reveal_with_fuel(PaneTree::pruned, 2);
        },
        PaneTree::HSplit { left, right, .. } => {
            lemma_contains_add(left.leaves(), right.leaves(), new_session);
            law_close_undoes_split_v(*left, target, new_session);
            law_close_undoes_split_v(*right, target, new_session);
        },
        PaneTree::VSplit { top, bottom, .. } => {
            lemma_contains_add(top.leaves(), bottom.leaves(), new_session);
            law_close_undoes_split_v(*top, target, new_session);
            law_close_undoes_split_v(*bottom, target, new_session);
        },
    }
}


/// Closing a session that one side of a split shows alone gives back the
/// other side exactly as it was, where that side does not show the session:
/// the pane that remains keeps its layout.
pub proof fn law_close_keeps_the_other_side(a: PaneTree, b: PaneTree, bits: u32, target: SessionId)
    requires
        forall|i: int| 0 <= i < a.leaves().len() ==> a.leaves()[i] == target,
        !b.leaves().contains(target),
    ensures
        (PaneTree::HSplit { ratio_bits: bits, left: Box::new(a), right: Box::new(b) }).pruned(target) == Some(b),
        (PaneTree::HSplit { ratio_bits: bits, left: Box::new(b), right: Box::new(a) }).pruned(target) == Some(b),
        (PaneTree::VSplit { ratio_bits: bits, top: Box::new(a), bottom: Box::new(b) }).pruned(target) == Some(b),
        (PaneTree::VSplit { ratio_bits: bits, top: Box::new(b), bottom: Box::new(a) }).pruned(target) == Some(b),
{
    lemma_pruned_leaves(a, target);
    law_close_absent_is_identity(b, target);
}

/// When closing removes one side of a split entirely, what remains is what
/// closing leaves of the other side, in the layout that side had: no split
/// changes direction or ratio on the way.
pub proof fn law_close_returns_the_surviving_side(t: PaneTree, target: SessionId)
    ensures
        t matches PaneTree::HSplit { left, right, .. } ==> {
            &&& (left.pruned(target) is None ==> t.pruned(target) == right.pruned(target))
            &&& (right.pruned(target) is None ==> t.pruned(target) == left.pruned(target))
        },
        t matches PaneTree::VSplit { top, bottom, .. } ==> {
            &&& (top.pruned(target) is None ==> t.pruned(target) == bottom.pruned(target))
            &&& (bottom.pruned(target) is None ==> t.pruned(target) == top.pruned(target))
        },
{
}

/// A tree that does not show `target` keeps all its ratios when `target`'s
/// split is resized.
pub proof fn law_resize_absent_is_identity(t: PaneTree, target: SessionId, bits: u32)
    requires
        !t.leaves().contains(target),
    ensures
        t.with_ratio(target, bits) == t,
    decreases t,
{
    match t {
        PaneTree::Terminal(_) => {},
        PaneTree::HSplit { left, right, .. } => {
            lemma_contains_add(left.leaves(), right.leaves(), target);
            law_resize_absent_is_identity(*left, target, bits);
            law_resize_absent_is_identity(*right, target, bits);
        },
        PaneTree::VSplit { top, bottom, .. } => {
            lemma_contains_add(top.leaves(), bottom.leaves(), target);
            law_resize_absent_is_identity(*top, target, bits);
            law_resize_absent_is_identity(*bottom, target, bits);
        },
    }
}

/// Resizing at a split whose sides show `target` changes only that split's
/// ratio: both of its sides come back unchanged, nested splits included.
pub proof fn law_resize_keeps_the_children(a: PaneTree, b: PaneTree, old_bits: u32, target: SessionId, bits: u32)
    requires
        a.leaves().contains(target) || b.leaves().contains(target),
    ensures
        (PaneTree::HSplit { ratio_bits: old_bits, left: Box::new(a), right: Box::new(b) }).with_ratio(target, bits)
            == (PaneTree::HSplit { ratio_bits: bits, left: Box::new(a), right: Box::new(b) }),
        (PaneTree::VSplit { ratio_bits: old_bits, top: Box::new(a), bottom: Box::new(b) }).with_ratio(target, bits)
            == (PaneTree::VSplit { ratio_bits: bits, top: Box::new(a), bottom: Box::new(b) }),
{
}

/// Resizing changes no session and no split that does not hold `target`:
/// where neither side of a split shows it, the split keeps its ratio and each
/// side is resized in the same way.
pub proof fn law_resize_passes_over_other_splits(a: PaneTree, b: PaneTree, old_bits: u32, target: SessionId, bits: u32)
    requires
        !a.leaves().contains(target),
        !b.leaves().contains(target),
    ensures
        (PaneTree::HSplit { ratio_bits: old_bits, left: Box::new(a), right: Box::new(b) }).with_ratio(target, bits)
            == (PaneTree::HSplit { ratio_bits: old_bits, left: Box::new(a), right: Box::new(b) }),
        (PaneTree::VSplit { ratio_bits: old_bits, top: Box::new(a), bottom: Box::new(b) }).with_ratio(target, bits)
            == (PaneTree::VSplit { ratio_bits: old_bits, top: Box::new(a), bottom: Box::new(b) }),
{
    law_resize_absent_is_identity(a, target, bits);
    law_resize_absent_is_identity(b, target, bits);
}

} // verus!

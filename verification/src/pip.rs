//! Picture-in-picture: windows that are minimized to small live pictures.

use vstd::prelude::*;

use crate::container::ContainerKind;
use crate::stack_laws::{lemma_filter_picks, the_nearest_is_found};
use crate::tree::{descendants, nearest, wf, Nodes, Tree};
use crate::tree_walks::{descendants_are_all_below, is_within};
use crate::window_lists::{is_window_in, lemma_windows_below, windows_below};
use crate::window_state::WindowState;

verus! {

/// What picture-in-picture is asked for.
#[derive(Clone, Copy, Debug, PartialEq, Eq, Structural)]
pub enum PipTarget {
    Window,
    Workspace,
}

/// One window of a group.
#[derive(Clone, Copy, Debug, PartialEq, Eq, Structural)]
pub struct PipMember {
    pub window_id: u128,
    /// The picture that it is shown as, once it is minimized.
    pub tile: Option<u64>,
}

impl PipMember {
    /// A member without a picture.
    pub fn new(window_id: u128) -> (member: PipMember)
        ensures
            member == (PipMember { window_id, tile: None }),
    {
        PipMember { window_id, tile: None }
    }
}

/// The group of windows that is shown as pictures.
#[derive(Debug)]
pub struct PipState {
    pub target: PipTarget,
    pub members: Vec<PipMember>,
}

/// The windows of the members.
pub open spec fn member_ids(members: Seq<PipMember>) -> Seq<u128> {
    members.map_values(|m: PipMember| m.window_id)
}

impl PipState {
    /// A group without pictures.
    pub fn new(target: PipTarget, window_ids: &Vec<u128>) -> (state: PipState)
        ensures
            state.target == target,
            state.members@ == window_ids@.map_values(
                |id: u128| PipMember { window_id: id, tile: None },
            ),
            member_ids(state.members@) == window_ids@,
    {
        let mut members: Vec<PipMember> = Vec::new();
        let mut i: usize = 0;
        while i < window_ids.len()
            invariant
                i <= window_ids@.len(),
                members@.len() == i,
                forall|k: int|
                    0 <= k < i ==> members@[k] == (PipMember {
                        window_id: window_ids@[k],
                        tile: None,
                    }),
            decreases window_ids@.len() - i,
        {
            members.push(PipMember::new(window_ids[i]));
            i = i + 1;
        }
        proof {
            assert(members@ =~= window_ids@.map_values(
                |id: u128| PipMember { window_id: id, tile: None },
            ));
            assert(member_ids(members@) =~= window_ids@);
        }
        PipState { target, members }
    }

    /// Whether the window is a member.
    pub fn contains(&self, window_id: u128) -> (result: bool)
        ensures
            result == member_ids(self.members@).contains(window_id),
    {
        let ghost ids = member_ids(self.members@);
        let mut i: usize = 0;
        while i < self.members.len()
            invariant
                i <= self.members@.len(),
                ids == member_ids(self.members@),
                forall|k: int| 0 <= k < i ==> ids[k] != window_id,
            decreases self.members@.len() - i,
        {
            if self.members[i].window_id == window_id {
                proof {
                    assert(ids[i as int] == window_id);
                }
                return true;
            }
            i = i + 1;
        }
        false
    }

    fn ids(&self) -> (result: Vec<u128>)
        ensures
            result@ == member_ids(self.members@),
    {
        let mut out: Vec<u128> = Vec::new();
        let mut i: usize = 0;
        while i < self.members.len()
            invariant
                i <= self.members@.len(),
                out@ =~= member_ids(self.members@).subrange(0, i as int),
            decreases self.members@.len() - i,
        {
            out.push(self.members[i].window_id);
            i = i + 1;
        }
        proof {
            assert(out@ =~= member_ids(self.members@));
        }
        out
    }
}

/// Why picture-in-picture was refused.
#[derive(Clone, Copy, Debug, PartialEq, Eq, Structural)]
pub enum PipError {
    NotAWindow,
    NoWorkspace,
}

/// The windows that `target` asks for, seen from `subject`: itself, or all of
/// its workspace.
pub open spec fn targeted(m: Nodes, target: PipTarget, subject: u128) -> Result<
    Seq<u128>,
    PipError,
> {
    match target {
        PipTarget::Window => if m[subject].kind.spec_is_window() {
            Ok(seq![subject])
        } else {
            Err(PipError::NotAWindow)
        },
        PipTarget::Workspace => match nearest(m, subject, ContainerKind::Workspace) {
            Some(ws) => Ok(windows_below(m, ws)),
            None => Err(PipError::NoWorkspace),
        },
    }
}

/// The windows that `target` asks for.
pub fn resolve_members(tree: &Tree, target: PipTarget, subject: u128) -> (result: Result<
    Vec<u128>,
    PipError,
>)
    requires
        wf(tree@),
        tree@.contains_key(subject),
    ensures
        match result {
            Ok(ids) => {
                &&& targeted(tree@, target, subject) == Ok::<Seq<u128>, PipError>(ids@)
                &&& forall|k: int|
                    0 <= k < ids@.len() ==> tree@.contains_key(#[trigger] ids@[k])
                        && tree@[ids@[k]].kind.spec_is_window()
            },
            Err(e) => targeted(tree@, target, subject) == Err::<Seq<u128>, PipError>(e),
        },
{
    match target {
        PipTarget::Window => {
            if !tree.get(subject).kind.is_window() {
                return Err(PipError::NotAWindow);
            }
            let mut ids: Vec<u128> = Vec::new();
            ids.push(subject);
            proof {
                assert(ids@ =~= seq![subject]);
            }
            Ok(ids)
        },
        PipTarget::Workspace => {
            let ws: u128 = match tree.nearest(subject, ContainerKind::Workspace) {
                Some(ws) => ws,
                None => {
                    return Err(PipError::NoWorkspace);
                },
            };
            let ids = tree.windows_below(ws);
            proof {
                assert forall|k: int| 0 <= k < ids@.len() implies tree@.contains_key(
                    #[trigger] ids@[k],
                ) && tree@[ids@[k]].kind.spec_is_window() by {
                    lemma_windows_below(tree@, ws, k);
                }
            }
            Ok(ids)
        },
    }
}

/// Picks the windows that are there and minimized.
pub open spec fn is_minimized_in(m: Nodes) -> spec_fn(u128) -> bool {
    |x: u128|
        m.contains_key(x) && m[x].kind.spec_is_window() && m[x].state == WindowState::Minimized
}

/// Picks the windows that are not minimized.
pub open spec fn is_open_in(m: Nodes) -> spec_fn(u128) -> bool {
    |x: u128| m[x].state != WindowState::Minimized
}

fn minimized_ones(tree: &Tree, ids: &Vec<u128>) -> (result: Vec<u128>)
    ensures
        result@ == ids@.filter(is_minimized_in(tree@)),
{
    let ghost pred = is_minimized_in(tree@);
    let mut out: Vec<u128> = Vec::new();
    let mut i: usize = 0;
    proof {
        reveal(Seq::filter);
    }
    while i < ids.len()
        invariant
            i <= ids@.len(),
            pred == is_minimized_in(tree@),
            out@ == ids@.subrange(0, i as int).filter(pred),
        decreases ids@.len() - i,
    {
        proof {
            crate::stack::lemma_filter_step(ids@, pred, i as int);
        }
        let x: u128 = ids[i];
        if tree.contains(x) {
            let node = tree.get(x);
            if node.kind.is_window() && node.state == WindowState::Minimized {
                out.push(x);
            }
        }
        i = i + 1;
    }
    proof {
        assert(ids@.subrange(0, i as int) =~= ids@);
    }
    out
}

fn open_ones(tree: &Tree, ids: &Vec<u128>) -> (result: Vec<u128>)
    requires
        forall|k: int| 0 <= k < ids@.len() ==> tree@.contains_key(#[trigger] ids@[k]),
    ensures
        result@ == ids@.filter(is_open_in(tree@)),
{
    let ghost pred = is_open_in(tree@);
    let mut out: Vec<u128> = Vec::new();
    let mut i: usize = 0;
    proof {
        reveal(Seq::filter);
    }
    while i < ids.len()
        invariant
            i <= ids@.len(),
            pred == is_open_in(tree@),
            out@ == ids@.subrange(0, i as int).filter(pred),
            forall|k: int| 0 <= k < ids@.len() ==> tree@.contains_key(#[trigger] ids@[k]),
        decreases ids@.len() - i,
    {
        proof {
            crate::stack::lemma_filter_step(ids@, pred, i as int);
        }
        let x: u128 = ids[i];
        if tree.get(x).state != WindowState::Minimized {
            out.push(x);
        }
        i = i + 1;
    }
    proof {
        assert(ids@.subrange(0, i as int) =~= ids@);
    }
    out
}

/// What a toggle does: the windows that are restored first, then those that
/// are minimized, and the group that is shown once all of that is done.
#[derive(Debug)]
pub struct PipPlan {
    pub restores: Vec<u128>,
    pub minimizes: Vec<u128>,
    pub next: Option<PipState>,
}

/// Whether `ids` are all members of the group, and as many.
pub open spec fn is_same_group(members: Seq<PipMember>, ids: Seq<u128>) -> bool {
    &&& members.len() == ids.len()
    &&& forall|k: int| 0 <= k < ids.len() ==> member_ids(members).contains(#[trigger] ids[k])
}

/// The group and its windows as plain values.
pub open spec fn group_of(pip: Option<PipState>) -> Option<(PipTarget, Seq<PipMember>)> {
    match pip {
        Some(p) => Some((p.target, p.members@)),
        None => None,
    }
}

fn same_group(pip: &PipState, ids: &Vec<u128>) -> (result: bool)
    ensures
        result == is_same_group(pip.members@, ids@),
{
    if pip.members.len() != ids.len() {
        return false;
    }
    let mut i: usize = 0;
    while i < ids.len()
        invariant
            i <= ids@.len(),
            forall|k: int|
                0 <= k < i ==> member_ids(pip.members@).contains(#[trigger] ids@[k]),
        decreases ids@.len() - i,
    {
        if !pip.contains(ids[i]) {
            proof {
                assert(!member_ids(pip.members@).contains(ids@[i as int]));
            }
            return false;
        }
        i = i + 1;
    }
    true
}

/// A plan as plain values.
#[verifier::ext_equal]
pub struct PipOutline {
    pub restores: Seq<u128>,
    pub minimizes: Seq<u128>,
    pub next: Option<(PipTarget, Seq<PipMember>)>,
}

impl PipPlan {
    pub open spec fn outline(self) -> PipOutline {
        PipOutline {
            restores: self.restores@,
            minimizes: self.minimizes@,
            next: group_of(self.next),
        }
    }
}

/// What asking for the windows `ids` does while the windows of `shown` are the
/// group that is shown, if there is one.
pub open spec fn toggled(
    m: Nodes,
    target: PipTarget,
    ids: Seq<u128>,
    shown: Option<Seq<PipMember>>,
) -> PipOutline {
    if shown is Some && is_same_group(shown->0, ids) {
        PipOutline {
            restores: ids.filter(is_minimized_in(m)),
            minimizes: Seq::empty(),
            next: None,
        }
    } else {
        PipOutline {
            restores: if shown is Some {
                member_ids(shown->0).filter(is_minimized_in(m))
            } else {
                Seq::empty()
            },
            minimizes: ids.filter(is_open_in(m)),
            next: Some(
                (target, ids.map_values(|id: u128| PipMember { window_id: id, tile: None })),
            ),
        }
    }
}

/// Decides what toggling picture-in-picture does. For the group that is shown
/// its windows are restored. Else the group that is shown, if any, is restored,
/// and the windows that are asked for become the group.
pub fn toggle_pip(tree: &Tree, target: PipTarget, subject: u128, pip: &Option<PipState>) -> (
    result: Result<PipPlan, PipError>)
    requires
        wf(tree@),
        tree@.contains_key(subject),
    ensures
        match targeted(tree@, target, subject) {
            Err(e) => result == Err::<PipPlan, PipError>(e),
            Ok(ids) => {
                &&& result is Ok
                &&& result->Ok_0.outline() == toggled(
                    tree@,
                    target,
                    ids,
                    match *pip {
                        Some(p) => Some(p.members@),
                        None => None,
                    },
                )
            },
        },
{
    let ids = match resolve_members(tree, target, subject) {
        Ok(ids) => ids,
        Err(e) => {
            return Err(e);
        },
    };
    let mut restores: Vec<u128> = Vec::new();
    if let Some(p) = pip {
        if same_group(p, &ids) {
            restores = minimized_ones(tree, &ids);
            return Ok(PipPlan { restores, minimizes: Vec::new(), next: None });
        }
        let previous = p.ids();
        restores = minimized_ones(tree, &previous);
    }
    let minimizes = open_ones(tree, &ids);
    Ok(PipPlan { restores, minimizes, next: Some(PipState::new(target, &ids)) })
}

/// Decides what a click on the picture of a window does: the group that it is
/// a member of is restored. Other windows change nothing.
pub fn restore_pip_group(tree: &Tree, window_id: u128, pip: &Option<PipState>) -> (result: Option<
    PipPlan,
>)
    ensures
        if *pip is Some && member_ids((*pip)->0.members@).contains(window_id) {
            &&& result is Some
            &&& result->0.next is None
            &&& result->0.restores@ == member_ids((*pip)->0.members@).filter(
                is_minimized_in(tree@),
            )
            &&& result->0.minimizes@ == Seq::<u128>::empty()
        } else {
            result is None
        },
{
    match pip {
        Some(p) => if p.contains(window_id) {
            let ids = p.ids();
            let restores = minimized_ones(tree, &ids);
            Some(PipPlan { restores, minimizes: Vec::new(), next: None })
        } else {
            None
        },
        None => None,
    }
}

/// Ends a toggle. The group changes only if every window could be restored and
/// minimized as planned.
pub fn finish_pip(pip: &mut Option<PipState>, plan: PipPlan, succeeded: bool)
    ensures
        *final(pip) == (if succeeded {
            plan.next
        } else {
            *old(pip)
        }),
{
    if succeeded {
        *pip = plan.next;
    }
}

/// Asking twice for the same windows is asking for the group that is shown.
pub proof fn asking_twice_is_the_same_group(ids: Seq<u128>)
    ensures
        is_same_group(
            ids.map_values(|id: u128| PipMember { window_id: id, tile: None }),
            ids,
        ),
{
    let members = ids.map_values(|id: u128| PipMember { window_id: id, tile: None });
    assert forall|k: int| 0 <= k < ids.len() implies member_ids(members).contains(
        #[trigger] ids[k],
    ) by {
        assert(member_ids(members)[k] == ids[k]);
    }
}

/// If some window that is asked for is not in the group that is shown, the
/// windows that are asked for become the group, in their order and without
/// pictures. Of the old group the minimized windows are restored, and of the new
/// one the open windows are minimized.
pub proof fn other_windows_make_another_group(
    m: Nodes,
    target: PipTarget,
    ids: Seq<u128>,
    shown: Option<Seq<PipMember>>,
    x: u128,
    y: u128,
)
    requires
        ids.contains(x),
        shown is Some ==> forall|k: int|
            0 <= k < shown->0.len() ==> (#[trigger] shown->0[k]).window_id != x,
    ensures
        ({
            let plan = toggled(m, target, ids, shown);
            let (new_target, members) = plan.next->0;
            &&& plan.next is Some
            &&& new_target == target
            &&& members.len() == ids.len()
            &&& forall|k: int|
                0 <= k < ids.len() ==> (#[trigger] members[k]).window_id == ids[k]
                    && members[k].tile is None
            &&& plan.minimizes.contains(y) <==> ids.contains(y) && m[y].state
                != WindowState::Minimized
            &&& plan.restores.contains(y) <==> shown is Some && m.contains_key(y) && m[y].state
                == WindowState::Minimized && (m[y].kind == ContainerKind::TilingWindow || m[y].kind
                == ContainerKind::NonTilingWindow) && exists|k: int|
                0 <= k < shown->0.len() && (#[trigger] shown->0[k]).window_id == y
        }),
{
    lemma_filter_picks(ids, is_open_in(m), y);
    if shown is Some {
        let members = shown->0;
        let old = member_ids(members);
        assert(!old.contains(x));
        let j = choose|j: int| 0 <= j < ids.len() && ids[j] == x;
        assert(!old.contains(ids[j]));
        lemma_filter_picks(old, is_minimized_in(m), y);
        if old.contains(y) {
            let k = choose|k: int| 0 <= k < old.len() && old[k] == y;
            assert(members[k].window_id == y);
        }
        if exists|k: int| 0 <= k < members.len() && (#[trigger] members[k]).window_id == y {
            let k = choose|k: int|
                0 <= k < members.len() && (#[trigger] members[k]).window_id == y;
            assert(old[k] == y);
        }
    }
}

/// A group ends exactly if its own windows are asked for: all of them and no
/// others. Its minimized windows are then restored, and none is minimized.
pub proof fn groups_end_for_their_own_windows(
    m: Nodes,
    target: PipTarget,
    ids: Seq<u128>,
    shown: Option<Seq<PipMember>>,
    y: u128,
)
    requires
        ids.no_duplicates(),
        shown is Some ==> member_ids(shown->0).no_duplicates(),
    ensures
        ({
            let plan = toggled(m, target, ids, shown);
            &&& plan.next is None <==> shown is Some && forall|z: u128| #[trigger]
                ids.contains(z) <==> exists|k: int|
                    0 <= k < shown->0.len() && (#[trigger] shown->0[k]).window_id == z
            &&& plan.next is None ==> {
                &&& plan.minimizes.len() == 0
                &&& plan.restores.contains(y) <==> ids.contains(y) && m.contains_key(y)
                    && m[y].state == WindowState::Minimized && (m[y].kind
                    == ContainerKind::TilingWindow || m[y].kind == ContainerKind::NonTilingWindow)
            }
        }),
{
    lemma_filter_picks(ids, is_minimized_in(m), y);
    if shown is Some {
        let members = shown->0;
        let old = member_ids(members);
        assert forall|z: u128| #[trigger] old.contains(z) <==> exists|k: int|
            0 <= k < members.len() && (#[trigger] members[k]).window_id == z by {
            if old.contains(z) {
                let k = choose|k: int| 0 <= k < old.len() && old[k] == z;
                assert(members[k].window_id == z);
            }
            if exists|k: int| 0 <= k < members.len() && (#[trigger] members[k]).window_id == z {
                let k = choose|k: int|
                    0 <= k < members.len() && (#[trigger] members[k]).window_id == z;
                assert(old[k] == z);
            }
        }
        ids.unique_seq_to_set();
        old.unique_seq_to_set();
        if is_same_group(members, ids) {
            assert(ids.to_set().subset_of(old.to_set())) by {
                assert forall|z: u128| #[trigger] ids.to_set().contains(
                    z,
                ) implies old.to_set().contains(z) by {
                    let k = choose|k: int| 0 <= k < ids.len() && ids[k] == z;
                    assert(old.contains(ids[k]));
                }
            }
            vstd::set_lib::lemma_subset_equality(ids.to_set(), old.to_set());
            assert forall|z: u128| #[trigger] ids.contains(z) <==> old.contains(z) by {
                assert(ids.to_set().contains(z) <==> old.to_set().contains(z));
            }
        }
        if forall|z: u128| #[trigger]
            ids.contains(z) <==> exists|k: int|
                0 <= k < members.len() && (#[trigger] members[k]).window_id == z {
            assert(ids.to_set() =~= old.to_set()) by {
                assert forall|z: u128| #[trigger] ids.to_set().contains(z)
                    <==> old.to_set().contains(z) by {
                    assert(ids.contains(z) <==> old.contains(z));
                }
            }
            assert forall|k: int| 0 <= k < ids.len() implies old.contains(#[trigger] ids[k]) by {
                assert(ids.contains(ids[k]));
            }
            assert(is_same_group(members, ids));
        }
    }
}

/// A window is asked for alone; a workspace with all of its windows, each once.
pub proof fn all_that_is_asked_for_is_found(m: Nodes, target: PipTarget, subject: u128, x: u128)
    requires
        wf(m),
        m.contains_key(subject),
    ensures
        ({
            let is_window = m[subject].kind == ContainerKind::TilingWindow || m[subject].kind
                == ContainerKind::NonTilingWindow;
            let ws = nearest(m, subject, ContainerKind::Workspace);
            let found = targeted(m, target, subject);
            &&& found is Ok ==> found->Ok_0.no_duplicates()
            &&& target == PipTarget::Window && is_window ==> found is Ok && found->Ok_0 == seq![
                subject,
            ]
            &&& target == PipTarget::Window && !is_window ==> found == Err::<Seq<u128>, PipError>(
                PipError::NotAWindow,
            )
            &&& target == PipTarget::Workspace && ws is None ==> found == Err::<
                Seq<u128>,
                PipError,
            >(PipError::NoWorkspace)
            &&& target == PipTarget::Workspace && ws is Some ==> found is Ok && (
            found->Ok_0.contains(x) <==> is_within(m, x, ws->0) && x != ws->0 && (m[x].kind
                == ContainerKind::TilingWindow || m[x].kind == ContainerKind::NonTilingWindow))
        }),
{
    if let Some(ws) = nearest(m, subject, ContainerKind::Workspace) {
        the_nearest_is_found(m, subject, ContainerKind::Workspace, subject);
        descendants_are_all_below(m, ws, x);
        lemma_filter_picks(descendants(m, ws), is_window_in(m), x);
        crate::split::lemma_filter_members(descendants(m, ws), is_window_in(m));
    }
}

} // verus!

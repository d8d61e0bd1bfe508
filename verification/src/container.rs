//! Handles on the nodes of the container tree.
//!
//! A handle names a container by its id; what the container holds stands in
//! [`crate::tree::Tree`].

use vstd::prelude::*;
use vstd::std_specs::cmp::PartialEqSpecImpl;

verus! {

/// The axis along which siblings are laid out.
#[derive(Clone, Copy, Debug, PartialEq, Eq, Structural)]
pub enum TilingDirection {
    Horizontal,
    Vertical,
}

/// How a workspace or a split arranges its children.
#[derive(Clone, Copy, Debug, PartialEq, Eq, Structural)]
pub enum WorkspaceLayout {
    Split(TilingDirection),
    Grid,
    Columns,
}

impl WorkspaceLayout {
    pub fn is_split(&self) -> (result: bool)
        ensures
            result == (self is Split),
    {
        match *self {
            WorkspaceLayout::Split(_) => true,
            _ => false,
        }
    }

    pub open spec fn spec_inverse(self) -> WorkspaceLayout {
        match self {
            WorkspaceLayout::Split(TilingDirection::Horizontal) => WorkspaceLayout::Split(
                TilingDirection::Vertical,
            ),
            WorkspaceLayout::Split(TilingDirection::Vertical) => WorkspaceLayout::Split(
                TilingDirection::Horizontal,
            ),
            _ => self,
        }
    }

    /// The split along the other axis; other layouts are left as they are.
    pub fn inverse(&self) -> (result: WorkspaceLayout)
        ensures
            result == self.spec_inverse(),
            result.spec_inverse() == *self,
    {
        match *self {
            WorkspaceLayout::Split(TilingDirection::Horizontal) => WorkspaceLayout::Split(
                TilingDirection::Vertical,
            ),
            WorkspaceLayout::Split(TilingDirection::Vertical) => WorkspaceLayout::Split(
                TilingDirection::Horizontal,
            ),
            _ => *self,
        }
    }
}

/// The kinds of container a tree is made of.
#[derive(Clone, Copy, Debug, PartialEq, Eq, Structural)]
pub enum ContainerKind {
    Root,
    Monitor,
    Workspace,
    Split,
    Stack,
    TilingWindow,
    NonTilingWindow,
}

impl ContainerKind {
    /// Whether containers of this kind are windows.
    pub open spec fn spec_is_window(self) -> bool {
        self is TilingWindow || self is NonTilingWindow
    }

    /// Whether containers of this kind take part in the tiling layout.
    pub open spec fn spec_is_tiling(self) -> bool {
        self is Split || self is Stack || self is TilingWindow
    }

    /// Whether containers of this kind have a layout of their own.
    pub open spec fn spec_is_direction(self) -> bool {
        self is Workspace || self is Split
    }

    pub fn is_window(&self) -> (result: bool)
        ensures
            result == self.spec_is_window(),
    {
        match *self {
            ContainerKind::TilingWindow => true,
            ContainerKind::NonTilingWindow => true,
            _ => false,
        }
    }

    pub fn is_tiling(&self) -> (result: bool)
        ensures
            result == self.spec_is_tiling(),
    {
        match *self {
            ContainerKind::Split => true,
            ContainerKind::Stack => true,
            ContainerKind::TilingWindow => true,
            _ => false,
        }
    }

    pub fn is_direction(&self) -> (result: bool)
        ensures
            result == self.spec_is_direction(),
    {
        match *self {
            ContainerKind::Workspace => true,
            ContainerKind::Split => true,
            _ => false,
        }
    }
}

#[derive(Clone, Copy, Debug, PartialEq, Eq, Structural)]
pub struct RootContainer {
    pub id: u128,
}

#[derive(Clone, Copy, Debug, PartialEq, Eq, Structural)]
pub struct Monitor {
    pub id: u128,
}

#[derive(Clone, Copy, Debug, PartialEq, Eq, Structural)]
pub struct Workspace {
    pub id: u128,
}

#[derive(Clone, Copy, Debug, PartialEq, Eq, Structural)]
pub struct SplitContainer {
    pub id: u128,
}

#[derive(Clone, Copy, Debug, PartialEq, Eq, Structural)]
pub struct StackContainer {
    pub id: u128,
}

#[derive(Clone, Copy, Debug, PartialEq, Eq, Structural)]
pub struct TilingWindow {
    pub id: u128,
}

#[derive(Clone, Copy, Debug, PartialEq, Eq, Structural)]
pub struct NonTilingWindow {
    pub id: u128,
}

/// A container of any kind.
#[derive(Clone, Copy, Debug)]
pub enum Container {
    Root(RootContainer),
    Monitor(Monitor),
    Workspace(Workspace),
    Split(SplitContainer),
    Stack(StackContainer),
    TilingWindow(TilingWindow),
    NonTilingWindow(NonTilingWindow),
}

/// A container that takes part in the tiling layout.
#[derive(Clone, Copy, Debug)]
pub enum TilingContainer {
    Split(SplitContainer),
    Stack(StackContainer),
    TilingWindow(TilingWindow),
}

/// A container that is a window.
#[derive(Clone, Copy, Debug)]
pub enum WindowContainer {
    TilingWindow(TilingWindow),
    NonTilingWindow(NonTilingWindow),
}

/// A container with a layout of its own.
#[derive(Clone, Copy, Debug)]
pub enum DirectionContainer {
    Workspace(Workspace),
    Split(SplitContainer),
}

impl Container {
    /// The handle of a container of kind `kind`.
    pub open spec fn spec_of(kind: ContainerKind, id: u128) -> Container {
        match kind {
            ContainerKind::Root => Container::Root(RootContainer { id }),
            ContainerKind::Monitor => Container::Monitor(Monitor { id }),
            ContainerKind::Workspace => Container::Workspace(Workspace { id }),
            ContainerKind::Split => Container::Split(SplitContainer { id }),
            ContainerKind::Stack => Container::Stack(StackContainer { id }),
            ContainerKind::TilingWindow => Container::TilingWindow(TilingWindow { id }),
            ContainerKind::NonTilingWindow => Container::NonTilingWindow(NonTilingWindow { id }),
        }
    }

    pub fn of(kind: ContainerKind, id: u128) -> (result: Container)
        ensures
            result == Container::spec_of(kind, id),
            result.spec_id() == id,
    {
        match kind {
            ContainerKind::Root => Container::Root(RootContainer { id }),
            ContainerKind::Monitor => Container::Monitor(Monitor { id }),
            ContainerKind::Workspace => Container::Workspace(Workspace { id }),
            ContainerKind::Split => Container::Split(SplitContainer { id }),
            ContainerKind::Stack => Container::Stack(StackContainer { id }),
            ContainerKind::TilingWindow => Container::TilingWindow(TilingWindow { id }),
            ContainerKind::NonTilingWindow => Container::NonTilingWindow(NonTilingWindow { id }),
        }
    }

    pub open spec fn spec_id(self) -> u128 {
        match self {
            Container::Root(c) => c.id,
            Container::Monitor(c) => c.id,
            Container::Workspace(c) => c.id,
            Container::Split(c) => c.id,
            Container::Stack(c) => c.id,
            Container::TilingWindow(c) => c.id,
            Container::NonTilingWindow(c) => c.id,
        }
    }

    pub fn id(&self) -> (result: u128)
        ensures
            result == self.spec_id(),
    {
        match *self {
            Container::Root(c) => c.id,
            Container::Monitor(c) => c.id,
            Container::Workspace(c) => c.id,
            Container::Split(c) => c.id,
            Container::Stack(c) => c.id,
            Container::TilingWindow(c) => c.id,
            Container::NonTilingWindow(c) => c.id,
        }
    }

    /// Whether this is a tiling window.
    pub fn is_tiling_window(&self) -> (result: bool)
        ensures
            result == (self is TilingWindow),
    {
        match *self {
            Container::TilingWindow(_) => true,
            _ => false,
        }
    }

    /// Whether this is a split.
    pub fn is_split(&self) -> (result: bool)
        ensures
            result == (self is Split),
    {
        match *self {
            Container::Split(_) => true,
            _ => false,
        }
    }

    /// Whether this is a workspace.
    pub fn is_workspace(&self) -> (result: bool)
        ensures
            result == (self is Workspace),
    {
        match *self {
            Container::Workspace(_) => true,
            _ => false,
        }
    }

    /// The split, if this is one.
    pub fn as_split(&self) -> (result: Option<&SplitContainer>)
        ensures
            result == (match *self {
                Container::Split(c) => Some(&c),
                _ => None::<&SplitContainer>,
            }),
    {
        match self {
            Container::Split(c) => Some(c),
            _ => None,
        }
    }

    /// The stack, if this is one.
    pub fn as_stack(&self) -> (result: Option<&StackContainer>)
        ensures
            result == (match *self {
                Container::Stack(c) => Some(&c),
                _ => None::<&StackContainer>,
            }),
    {
        match self {
            Container::Stack(c) => Some(c),
            _ => None,
        }
    }

    /// The workspace, if this is one.
    pub fn as_workspace(&self) -> (result: Option<&Workspace>)
        ensures
            result == (match *self {
                Container::Workspace(c) => Some(&c),
                _ => None::<&Workspace>,
            }),
    {
        match self {
            Container::Workspace(c) => Some(c),
            _ => None,
        }
    }

    /// The monitor, if this is one.
    pub fn as_monitor(&self) -> (result: Option<&Monitor>)
        ensures
            result == (match *self {
                Container::Monitor(c) => Some(&c),
                _ => None::<&Monitor>,
            }),
    {
        match self {
            Container::Monitor(c) => Some(c),
            _ => None,
        }
    }

    /// The window outside of the tiling layout, if this is one.
    pub fn as_non_tiling_window(&self) -> (result: Option<&NonTilingWindow>)
        ensures
            result == (match *self {
                Container::NonTilingWindow(c) => Some(&c),
                _ => None::<&NonTilingWindow>,
            }),
    {
        match self {
            Container::NonTilingWindow(c) => Some(c),
            _ => None,
        }
    }

    /// The container as a window, if it is one.
    pub fn as_window_container(&self) -> (result: Option<WindowContainer>)
        ensures
            result == (match *self {
                Container::TilingWindow(c) => Some(WindowContainer::TilingWindow(c)),
                Container::NonTilingWindow(c) => Some(WindowContainer::NonTilingWindow(c)),
                _ => None,
            }),
    {
        match *self {
            Container::TilingWindow(c) => Some(WindowContainer::TilingWindow(c)),
            Container::NonTilingWindow(c) => Some(WindowContainer::NonTilingWindow(c)),
            _ => None,
        }
    }

    /// The container as a part of the tiling layout, if it is one.
    pub fn as_tiling_container(&self) -> (result: Option<TilingContainer>)
        ensures
            result == (match *self {
                Container::Split(c) => Some(TilingContainer::Split(c)),
                Container::Stack(c) => Some(TilingContainer::Stack(c)),
                Container::TilingWindow(c) => Some(TilingContainer::TilingWindow(c)),
                _ => None,
            }),
    {
        match *self {
            Container::Split(c) => Some(TilingContainer::Split(c)),
            Container::Stack(c) => Some(TilingContainer::Stack(c)),
            Container::TilingWindow(c) => Some(TilingContainer::TilingWindow(c)),
            _ => None,
        }
    }

    /// The container as one with a layout, if it has one.
    pub fn as_direction_container(&self) -> (result: Option<DirectionContainer>)
        ensures
            result == (match *self {
                Container::Workspace(c) => Some(DirectionContainer::Workspace(c)),
                Container::Split(c) => Some(DirectionContainer::Split(c)),
                _ => None,
            }),
    {
        match *self {
            Container::Workspace(c) => Some(DirectionContainer::Workspace(c)),
            Container::Split(c) => Some(DirectionContainer::Split(c)),
            _ => None,
        }
    }
}

impl TilingContainer {
    pub open spec fn spec_id(self) -> u128 {
        match self {
            TilingContainer::Split(c) => c.id,
            TilingContainer::Stack(c) => c.id,
            TilingContainer::TilingWindow(c) => c.id,
        }
    }

    pub fn id(&self) -> (result: u128)
        ensures
            result == self.spec_id(),
    {
        match *self {
            TilingContainer::Split(c) => c.id,
            TilingContainer::Stack(c) => c.id,
            TilingContainer::TilingWindow(c) => c.id,
        }
    }

    /// Whether this is a tiling window.
    pub fn is_tiling_window(&self) -> (result: bool)
        ensures
            result == (self is TilingWindow),
    {
        match *self {
            TilingContainer::TilingWindow(_) => true,
            _ => false,
        }
    }
}

impl WindowContainer {
    pub open spec fn spec_id(self) -> u128 {
        match self {
            WindowContainer::TilingWindow(c) => c.id,
            WindowContainer::NonTilingWindow(c) => c.id,
        }
    }

    pub fn id(&self) -> (result: u128)
        ensures
            result == self.spec_id(),
    {
        match *self {
            WindowContainer::TilingWindow(c) => c.id,
            WindowContainer::NonTilingWindow(c) => c.id,
        }
    }

    /// Whether this is a tiling window.
    pub fn is_tiling_window(&self) -> (result: bool)
        ensures
            result == (self is TilingWindow),
    {
        match *self {
            WindowContainer::TilingWindow(_) => true,
            _ => false,
        }
    }

    /// The window outside of the tiling layout, if this is one.
    pub fn as_non_tiling_window(&self) -> (result: Option<&NonTilingWindow>)
        ensures
            result == (match *self {
                WindowContainer::NonTilingWindow(c) => Some(&c),
                _ => None::<&NonTilingWindow>,
            }),
    {
        match self {
            WindowContainer::NonTilingWindow(c) => Some(c),
            WindowContainer::TilingWindow(_) => None,
        }
    }
}

impl DirectionContainer {
    pub open spec fn spec_id(self) -> u128 {
        match self {
            DirectionContainer::Workspace(c) => c.id,
            DirectionContainer::Split(c) => c.id,
        }
    }

    pub fn id(&self) -> (result: u128)
        ensures
            result == self.spec_id(),
    {
        match *self {
            DirectionContainer::Workspace(c) => c.id,
            DirectionContainer::Split(c) => c.id,
        }
    }

    /// Whether this is a workspace.
    pub fn is_workspace(&self) -> (result: bool)
        ensures
            result == (self is Workspace),
    {
        match *self {
            DirectionContainer::Workspace(_) => true,
            _ => false,
        }
    }
}

impl PartialEqSpecImpl for Container {
    open spec fn obeys_eq_spec() -> bool {
        true
    }

    open spec fn eq_spec(&self, other: &Container) -> bool {
        self.spec_id() == other.spec_id()
    }
}

impl PartialEq for Container {
    fn eq(&self, other: &Container) -> (result: bool) {
        self.id() == other.id()
    }
}

impl Eq for Container {

}

impl PartialEqSpecImpl for TilingContainer {
    open spec fn obeys_eq_spec() -> bool {
        true
    }

    open spec fn eq_spec(&self, other: &TilingContainer) -> bool {
        self.spec_id() == other.spec_id()
    }
}

impl PartialEq for TilingContainer {
    fn eq(&self, other: &TilingContainer) -> (result: bool) {
        self.id() == other.id()
    }
}

impl Eq for TilingContainer {

}

impl PartialEqSpecImpl for WindowContainer {
    open spec fn obeys_eq_spec() -> bool {
        true
    }

    open spec fn eq_spec(&self, other: &WindowContainer) -> bool {
        self.spec_id() == other.spec_id()
    }
}

impl PartialEq for WindowContainer {
    fn eq(&self, other: &WindowContainer) -> (result: bool) {
        self.id() == other.id()
    }
}

impl Eq for WindowContainer {

}

impl PartialEqSpecImpl for DirectionContainer {
    open spec fn obeys_eq_spec() -> bool {
        true
    }

    open spec fn eq_spec(&self, other: &DirectionContainer) -> bool {
        self.spec_id() == other.spec_id()
    }
}

impl PartialEq for DirectionContainer {
    fn eq(&self, other: &DirectionContainer) -> (result: bool) {
        self.id() == other.id()
    }
}

impl Eq for DirectionContainer {

}

/// What each kind of container does: windows are those that tile and those that
/// do not, splits and stacks tile too, and workspaces and splits have a layout.
pub proof fn kinds_are_told_apart(kind: ContainerKind)
    ensures
        kind.spec_is_window() <==> kind == ContainerKind::TilingWindow || kind
            == ContainerKind::NonTilingWindow,
        kind.spec_is_tiling() <==> kind == ContainerKind::TilingWindow || kind
            == ContainerKind::Split || kind == ContainerKind::Stack,
        kind.spec_is_direction() <==> kind == ContainerKind::Workspace || kind
            == ContainerKind::Split,
{
}

/// A container of a kind is one of that kind, and keeps its id.
pub proof fn containers_go_by_their_ids(id: u128)
    ensures
        Container::spec_of(ContainerKind::Root, id) == Container::Root(RootContainer { id }),
        Container::spec_of(ContainerKind::Monitor, id) == Container::Monitor(Monitor { id }),
        Container::spec_of(ContainerKind::Workspace, id) == Container::Workspace(Workspace { id }),
        Container::spec_of(ContainerKind::Split, id) == Container::Split(SplitContainer { id }),
        Container::spec_of(ContainerKind::Stack, id) == Container::Stack(StackContainer { id }),
        Container::spec_of(ContainerKind::TilingWindow, id) == Container::TilingWindow(
            TilingWindow { id },
        ),
        Container::spec_of(ContainerKind::NonTilingWindow, id) == Container::NonTilingWindow(
            NonTilingWindow { id },
        ),
        forall|kind: ContainerKind| #[trigger] Container::spec_of(kind, id).spec_id() == id,
{
}

/// The inverse of a split is the split along the other axis. Other layouts have
/// no other axis.
pub proof fn inverse_splits_go_along_the_other_axis(layout: WorkspaceLayout)
    ensures
        WorkspaceLayout::Split(TilingDirection::Horizontal).spec_inverse() == WorkspaceLayout::Split(
            TilingDirection::Vertical,
        ),
        WorkspaceLayout::Split(TilingDirection::Vertical).spec_inverse() == WorkspaceLayout::Split(
            TilingDirection::Horizontal,
        ),
        !(layout is Split) ==> layout.spec_inverse() == layout,
{
}

} // verus!

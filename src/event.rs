//! A file-change event as the dispatcher sees it: the paths it touches and
//! what kind of change it reports.

use vstd::prelude::*;

use crate::path::PathModel;

verus! {

/// How a file's contents, name or metadata changed.
#[derive(Clone, Copy, Debug, PartialEq, Eq, Structural)]
pub enum ModifyKind {
    Any,
    Data,
    Metadata,
    Name,
    Other,
}

/// What kind of change an event reports.
#[derive(Clone, Copy, Debug, PartialEq, Eq, Structural)]
pub enum ChangeKind {
    Any,
    Access,
    Create,
    Modify(ModifyKind),
    Remove,
    Other,
}

/// One change, with the paths it touches, each as its components (a rename
/// may touch two). Routing goes by the first of them.
#[derive(Debug)]
pub struct Event {
    pub paths: Vec<Vec<String>>,
    pub kind: ChangeKind,
}

impl Event {
    /// The path that the event is routed by, if it has one.
    pub open spec fn primary_path(&self) -> Option<PathModel> {
        if self.paths.len() > 0 {
            Some(self.paths@[0].deep_view())
        } else {
            None
        }
    }

    /// The permissions or other metadata changed.
    pub fn chmoded(&self) -> (r: bool)
        ensures
            r == (self.kind == ChangeKind::Modify(ModifyKind::Metadata)),
    {
        self.kind == ChangeKind::Modify(ModifyKind::Metadata)
    }

    /// Something was created.
    pub fn created(&self) -> (r: bool)
        ensures
            r == (self.kind == ChangeKind::Create),
    {
        self.kind == ChangeKind::Create
    }

    /// The contents changed.
    pub fn changed(&self) -> (r: bool)
        ensures
            r == (self.kind == ChangeKind::Modify(ModifyKind::Data)),
    {
        self.kind == ChangeKind::Modify(ModifyKind::Data)
    }

    /// Something was removed.
    pub fn removed(&self) -> (r: bool)
        ensures
            r == (self.kind == ChangeKind::Remove),
    {
        self.kind == ChangeKind::Remove
    }

    /// Something was renamed.
    pub fn rename(&self) -> (r: bool)
        ensures
            r == (self.kind == ChangeKind::Modify(ModifyKind::Name)),
    {
        self.kind == ChangeKind::Modify(ModifyKind::Name)
    }
}

} // verus!

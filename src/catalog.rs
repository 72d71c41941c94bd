//! Companion libraries and operations grouped for browsing.
use vstd::prelude::*;
use crate::openapi::Operation;
use crate::text::{owned, views};

verus! {

/// One operation with the method, path and tag it is listed under.
#[derive(Debug)]
pub struct Plugin {
    method: String,
    path: String,
    tag: String,
    operation: Operation,
}

impl Plugin {
    pub closed spec fn method_view(&self) -> Seq<char> {
        self.method@
    }

    pub closed spec fn path_view(&self) -> Seq<char> {
        self.path@
    }

    pub closed spec fn tag_view(&self) -> Seq<char> {
        self.tag@
    }

    pub closed spec fn operation_view(&self) -> Operation {
        self.operation
    }

    pub fn new(method: &str, path: &str, tag: &str, operation: Operation) -> (r: Plugin)
        ensures
            r.method_view() == method@,
            r.path_view() == path@,
            r.tag_view() == tag@,
            r.operation_view() == operation,
    {
        Plugin { method: owned(method), path: owned(path), tag: owned(tag), operation }
    }

    pub fn method(&self) -> (r: String)
        ensures
            r@ == self.method_view(),
    {
        owned(self.method.as_str())
    }

    pub fn path(&self) -> (r: String)
        ensures
            r@ == self.path_view(),
    {
        owned(self.path.as_str())
    }

    pub fn tag(&self) -> (r: String)
        ensures
            r@ == self.tag_view(),
    {
        owned(self.tag.as_str())
    }

    pub fn operation(&self) -> (r: &Operation)
        ensures
            *r == self.operation_view(),
    {
        &self.operation
    }
}

/// A community library for the client's APIs.
#[derive(Debug, Clone)]
pub struct RiotAPILibrary {
    pub owner: String,
    pub repo: String,
    pub language: String,
    pub tags: Option<Vec<String>>,
}

/// Whether the library is tagged `lcu` or `ingame`.
pub fn is_lcu_or_ingame_library(x: &RiotAPILibrary) -> (r: bool)
    ensures
        r == match x.tags {
            Some(t) => views(t@).contains("lcu"@) || views(t@).contains("ingame"@),
            None => false,
        },
{
    match &x.tags {
        Some(tags) => crate::endpoint::contains_str(tags, "lcu") || crate::endpoint::contains_str(tags, "ingame"),
        None => false,
    }
}

/// Work for the background task of the dashboard.
#[derive(Debug, Clone, PartialEq)]
pub enum BackgroundCmd {
    LibrariesLoad,
    LibrariesOpenLink(String),
}

/// What the background task hands back.
#[derive(Debug, Clone)]
pub enum BackgroundCmdResult {
    LibrariesReady(Vec<RiotAPILibrary>),
}

/// Components of the dashboard.
#[derive(Debug, Clone, Copy, PartialEq, Eq, Hash)]
pub enum Id {
    GlobalListener,
    Libraries,
    Navigation,
    Welcome,
    QuitDialog,
}

/// Messages of the dashboard.
#[derive(Debug, Clone, Copy, PartialEq)]
pub enum Msg {
    AppClose,
    LibrariesInit,
    LibrariesSubmit(usize),
    LibrariesBlur,
    NavigationBlur,
    QuitDialogShow,
    QuitDialogCancel,
    QuitDialogOk,
    /// Nothing to do.
    Noop,
}

/// Kinds of dialog.
#[derive(Debug, Clone, Copy, PartialEq, Eq)]
pub enum DialogType {
    Warning,
}

} // verus!

//! Routing an event to its handler, and the text of the diagnostic lines
//! that the dispatch loops emit.

use vstd::prelude::*;

use crate::event::{ChangeKind, Event, ModifyKind};
use crate::path::{nearest_ancestor, PathModel};
use crate::registry::Registry;

verus! {

/// The registered path whose handler `e` goes to: the nearest registered
/// ancestor of its first path. An event without a path goes nowhere.
pub open spec fn target(keys: Set<PathModel>, e: Event) -> Option<PathModel> {
    match e.primary_path() {
        Some(p) => nearest_ancestor(keys, p),
        None => None,
    }
}

/// The handler that `e` goes to: the one registered at the nearest ancestor
/// of the event's first path, the path itself included. Only that handler
/// is returned, never one registered higher up.
pub fn handler_for_event<'a, H>(e: &Event, handlers: &'a mut Registry<H>) -> (r: Option<&'a mut H>)
    requires
        old(handlers).wf(),
    ensures
        final(handlers).wf(),
        match target(old(handlers)@.dom(), *e) {
            Some(a) => {
                &&& r is Some
                &&& *r.unwrap() == old(handlers)@[a]
                &&& final(handlers)@ == old(handlers)@.insert(a, *final(r.unwrap()))
            },
            None => r is None && final(handlers)@ == old(handlers)@,
        },
{
    if e.paths.len() == 0 {
        return None;
    }
    handlers.lookup_ancestor_mut(&e.paths[0])
}

/// A component that stands for the root of a path.
pub open spec fn is_root_text(c: Seq<char>) -> bool {
    c == seq!['/'] || c == seq!['\\']
}

/// A path written out: its components, with `/` between two of them unless
/// one is a root.
pub open spec fn path_text(p: PathModel) -> Seq<char>
    decreases p.len(),
{
    if p.len() == 0 {
        seq![]
    } else if p.len() == 1 {
        p[0]
    } else {
        let q = p.drop_last();
        let sep = if is_root_text(q.last()) || is_root_text(p.last()) {
            seq![]
        } else {
            seq!['/']
        };
        path_text(q) + sep + p.last()
    }
}

fn is_root(c: &String) -> (r: bool)
    ensures
        r == is_root_text(c@),
{
    let slash = String::from_str("/");
    let backslash = String::from_str("\\");
    proof {
        reveal_strlit("/");
        reveal_strlit("\\");
        assert(slash@ =~= seq!['/']);
        assert(backslash@ =~= seq!['\\']);
    }
    *c == slash || *c == backslash
}

/// Appends the text of `path` to `out`.
fn push_path(out: &mut String, path: &Vec<String>)
    ensures
        final(out)@ == old(out)@ + path_text(path.deep_view()),
{
    let ghost start = out@;
    let ghost p = path.deep_view();
    let mut i: usize = 0;
    while i < path.len()
        invariant
            i <= path.len(),
            p == path.deep_view(),
            out@ == start + path_text(p.subrange(0, i as int)),
        decreases path.len() - i,
    {
        proof {
            assert(p.subrange(0, i + 1).drop_last() =~= p.subrange(0, i as int));
        }
        if i > 0 && !is_root(&path[i - 1]) && !is_root(&path[i]) {
            out.append("/");
            proof {
                reveal_strlit("/");
            }
        }
        out.append(path[i].as_str());
        proof {
            assert(start + path_text(p.subrange(0, i + 1)) =~= out@);
        }
        i = i + 1;
    }
    assert(p.subrange(0, path.len() as int) =~= p);
}

/// The name of a kind of change, as a diagnostic line writes it.
pub open spec fn kind_text(k: ChangeKind) -> Seq<char> {
    match k {
        ChangeKind::Any => "any"@,
        ChangeKind::Access => "access"@,
        ChangeKind::Create => "create"@,
        ChangeKind::Modify(m) => match m {
            ModifyKind::Any => "modify"@,
            ModifyKind::Data => "modify (data)"@,
            ModifyKind::Metadata => "modify (metadata)"@,
            ModifyKind::Name => "modify (name)"@,
            ModifyKind::Other => "modify (other)"@,
        },
        ChangeKind::Remove => "remove"@,
        ChangeKind::Other => "other"@,
    }
}

fn kind_name(k: ChangeKind) -> (r: &'static str)
    ensures
        r@ == kind_text(k),
{
    match k {
        ChangeKind::Any => "any",
        ChangeKind::Access => "access",
        ChangeKind::Create => "create",
        ChangeKind::Modify(m) => match m {
            ModifyKind::Any => "modify",
            ModifyKind::Data => "modify (data)",
            ModifyKind::Metadata => "modify (metadata)",
            ModifyKind::Name => "modify (name)",
            ModifyKind::Other => "modify (other)",
        },
        ChangeKind::Remove => "remove",
        ChangeKind::Other => "other",
    }
}

/// The paths of an event written out, each after a space.
pub open spec fn paths_text(ps: Seq<PathModel>) -> Seq<char>
    decreases ps.len(),
{
    if ps.len() == 0 {
        seq![]
    } else {
        paths_text(ps.drop_last()) + " "@ + path_text(ps.last())
    }
}

/// The diagnostic line for a received event: its kind, then its paths.
pub fn log_event(event: &Event) -> (r: String)
    ensures
        r@ == "received event: "@ + kind_text(event.kind) + paths_text(event.paths.deep_view()),
{
    let mut out = String::from_str("received event: ");
    out.append(kind_name(event.kind));
    let ghost ps = event.paths.deep_view();
    let ghost head = out@;
    let mut i: usize = 0;
    while i < event.paths.len()
        invariant
            i <= event.paths.len(),
            ps == event.paths.deep_view(),
            out@ == head + paths_text(ps.subrange(0, i as int)),
        decreases event.paths.len() - i,
    {
        proof {
            assert(ps.subrange(0, i + 1).drop_last() =~= ps.subrange(0, i as int));
        }
        out.append(" ");
        push_path(&mut out, &event.paths[i]);
        proof {
            assert(head + paths_text(ps.subrange(0, i + 1)) =~= out@);
        }
        i = i + 1;
    }
    assert(ps.subrange(0, event.paths.len() as int) =~= ps);
    out
}

/// The diagnostic line for a candidate path of the ancestor walk.
pub fn log_matching_path(path: &Vec<String>) -> (r: String)
    ensures
        r@ == "matching against "@ + path_text(path.deep_view()),
{
    let mut out = String::from_str("matching against ");
    push_path(&mut out, path);
    out
}

/// The diagnostic line for an event source that has gone away.
pub fn log_dead() -> (r: String)
    ensures
        r@ == "sender disconnected! the watcher is dead"@,
{
    String::from_str("sender disconnected! the watcher is dead")
}

} // verus!

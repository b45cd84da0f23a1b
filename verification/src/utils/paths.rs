use vstd::prelude::*;

use crate::text::{chars_of, push_char, push_str, string_of};

verus! {

/// Capability manifest, found at the root of each installed capability.
pub const MANIFEST_FILENAME: &'static str = "caps.yaml";

/// Workspace manifest, found at the workspace root. Shares a name with
/// `MANIFEST_FILENAME` but holds a workspace manifest, never a capability
/// manifest; the two never share a directory.
pub const WORKSPACE_FILENAME: &'static str = "caps.yaml";

pub const WORKSPACE_DOC_FILENAME: &'static str = "CAPS.md";

pub const PROMPT_FILENAME: &'static str = "prompt.md";

/// Workspace-relative directory holding installed capabilities.
pub const CAPS_DIRNAME: &'static str = "caps";

/// Staging area for fetched providers. Lives inside `caps/` so the workspace
/// root stays clean, and is dot-prefixed so it is not mistaken for a capability.
pub const ACQUIRED_DIRNAME: &'static str = ".acquired";

/// Content-addressed contract storage, inside `caps/`.
pub const CONTRACTS_DIRNAME: &'static str = ".contracts";

/// `base` joined with the relative path `seg`, as `Path::join` joins a
/// relative path: a `/` goes between them unless `base` is empty or already
/// ends with one.
pub open spec fn join_path(base: Seq<char>, seg: Seq<char>) -> Seq<char> {
    if base.len() == 0 {
        seg
    } else if base.last() == '/' {
        base + seg
    } else {
        base + seq!['/'] + seg
    }
}

/// Joins the relative path `seg` onto `base`.
pub fn join(base: &str, seg: &str) -> (r: String)
    ensures
        r@ == join_path(base@, seg@),
{
    let bc = chars_of(base);
    let mut r = string_of(base);
    if bc.len() > 0 && bc[bc.len() - 1] != '/' {
        push_char(&mut r, '/');
    }
    push_str(&mut r, seg);
    r
}

pub fn manifest_path_for(capability_root: &str) -> (r: String)
    ensures
        r@ == join_path(capability_root@, "caps.yaml"@),
{
    join(capability_root, MANIFEST_FILENAME)
}

pub fn caps_dir_for(workspace_root: &str) -> (r: String)
    ensures
        r@ == join_path(workspace_root@, "caps"@),
{
    join(workspace_root, CAPS_DIRNAME)
}

pub fn acquired_dir_for(workspace_root: &str) -> (r: String)
    ensures
        r@ == join_path(join_path(workspace_root@, "caps"@), ".acquired"@),
{
    let caps = caps_dir_for(workspace_root);
    join(caps.as_str(), ACQUIRED_DIRNAME)
}

pub fn contracts_dir_for(workspace_root: &str) -> (r: String)
    ensures
        r@ == join_path(join_path(workspace_root@, "caps"@), ".contracts"@),
{
    let caps = caps_dir_for(workspace_root);
    join(caps.as_str(), CONTRACTS_DIRNAME)
}

} // verus!

//! Who is on the other end of a connection, and what the service grants them.

use crate::label::Taint;
use crate::path;
use crate::path::path_within;
use vstd::prelude::*;

verus! {

/// The role of a connection: the trusted control side may mint any capability,
/// a guest is not trusted.
#[derive(Clone, Copy, PartialEq, Eq, Structural)]
pub enum Role {
    Control,
    Guest,
}

/// What the service allows a connection. It is set by the service, never by
/// what the other end claims.
pub struct Policy {
    pub role: Role,
    /// The root below which a guest may be granted directories.
    pub workspace: Option<String>,
}

impl Clone for Policy {
    fn clone(&self) -> (r: Policy)
        ensures
            r.role == self.role,
            r.workspace is Some <==> self.workspace is Some,
            r.workspace is Some ==> r.workspace->0@ == self.workspace->0@,
    {
        Policy {
            role: self.role,
            workspace: match &self.workspace {
                Some(ws) => Some(ws.clone()),
                None => None,
            },
        }
    }
}

/// The taint that a grant carries in a role, given the one that was asked for.
pub open spec fn taint_granted(role: Role, asked: Taint) -> Taint {
    match role {
        Role::Control => asked,
        Role::Guest => Taint::Project,
    }
}

/// Whether a directory may be granted in a role, given what the workspace and the directory
/// resolve to, as far as they do.
pub open spec fn dir_granted(
    role: Role,
    workspace: Option<Seq<u8>>,
    root: Option<Seq<u8>>,
) -> bool {
    role == Role::Control || (workspace is Some && root is Some && path::below(workspace->0, root->0))
}

/// A resolved path, as contracts speak of it.
pub open spec fn resolved_view(p: Option<Vec<u8>>) -> Option<Seq<u8>> {
    match p {
        Some(b) => Some(b@),
        None => None,
    }
}

impl Policy {
    /// The policy of the control side.
    pub fn control() -> (r: Policy)
        ensures
            r.role == Role::Control,
            r.workspace is None,
    {
        Policy { role: Role::Control, workspace: None }
    }

    /// The policy of a guest confined to `workspace`.
    pub fn guest(workspace: &str) -> (r: Policy)
        ensures
            r.role == Role::Guest,
            r.workspace is Some,
            r.workspace->0@ == workspace@,
    {
        Policy { role: Role::Guest, workspace: Some(workspace.to_string()) }
    }

    /// The directory that a session under this policy is given to begin with: a
    /// guest's workspace, and nothing on the control side.
    pub fn bootstrap_root(&self) -> (r: Option<&str>)
        ensures
            r is Some <==> self.role == Role::Guest && self.workspace is Some,
            r is Some ==> r->0@ == self.workspace->0@,
    {
        match self.role {
            Role::Control => None,
            Role::Guest => match &self.workspace {
                Some(ws) => Some(ws.as_str()),
                None => None,
            },
        }
    }

    /// Decides whether a directory capability may be granted on `root`. The
    /// control side may have any; a guest only one within its workspace, told
    /// by the two resolved paths, and none where either could not be resolved.
    pub fn gate_grant_dir(
        &self,
        root: &str,
        resolved_workspace: &Option<Vec<u8>>,
        resolved_root: &Option<Vec<u8>>,
    ) -> (r: Result<(), String>)
        ensures
            r is Ok <==> self.role == Role::Control || (self.workspace is Some && resolved_workspace is Some
                && resolved_root is Some && path::below(resolved_workspace->0@, resolved_root->0@)),
            self.role == Role::Control || self.workspace is Some ==> (r is Ok <==> dir_granted(
                self.role,
                resolved_view(*resolved_workspace),
                resolved_view(*resolved_root),
            )),
            r is Err ==> r->Err_0@ == match self.workspace {
                None => "guest 无 workspace 授权域,拒绝 grant"@,
                Some(ws) => "越出 workspace:grant root "@ + root@ + " 不在 "@ + ws@ + " 之内"@,
            },
    {
        match self.role {
            Role::Control => Ok(()),
            Role::Guest => match &self.workspace {
                None => Err("guest 无 workspace 授权域,拒绝 grant".to_string()),
                Some(ws) => if path_within(resolved_workspace, resolved_root) {
                    Ok(())
                } else {
                    Err(
                        "越出 workspace:grant root ".to_string().concat(root).concat(" 不在 ").concat(
                            ws.as_str(),
                        ).concat(" 之内"),
                    )
                },
            },
        }
    }

    /// The taint that a grant carries: the control side is believed, a guest
    /// always gets `Project`.
    pub fn grant_taint(&self, client_taint: Taint) -> (r: Taint)
        ensures
            r == (match self.role {
                Role::Control => client_taint,
                Role::Guest => Taint::Project,
            }),
            r == taint_granted(self.role, client_taint),
    {
        match self.role {
            Role::Control => client_taint,
            Role::Guest => Taint::Project,
        }
    }
}

/// What a guest is granted is always the project's, whatever it asks for; the control side
/// is believed.
pub proof fn law_guest_taint(asked: Taint, other: Taint)
    ensures
        taint_granted(Role::Guest, asked) == Taint::Project,
        taint_granted(Role::Guest, asked) == taint_granted(Role::Guest, other),
        taint_granted(Role::Control, asked) == asked,
{
}

/// A guest is granted no directory outside its workspace, none where either cannot be
/// resolved, and any within it; the control side is granted any.
pub proof fn law_guest_stays_in_workspace(workspace: Seq<u8>, root: Seq<u8>, any: Option<Seq<u8>>)
    ensures
        dir_granted(Role::Guest, Some(workspace), Some(root)) <==> path::components(workspace).len() <= path::components(
            root,
        ).len() && path::components(root).take(path::components(workspace).len() as int) == path::components(workspace),
        !dir_granted(Role::Guest, None, any),
        !dir_granted(Role::Guest, any, None),
        dir_granted(Role::Control, any, None),
{
    let a = path::components(workspace);
    let b = path::components(root);
    if a.len() <= b.len() {
        assert(b.take(a.len() as int) =~= b.subrange(0, a.len() as int));
    }
}

} // verus!

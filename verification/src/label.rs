//! Taint labels, the operations that a capability allows, and the roles of a
//! connection.

use crate::text;
use crate::text::{split, str_eq, trim};
use vstd::prelude::*;

verus! {

/// Where data comes from, and so where it may flow.
#[derive(Clone, Copy, PartialEq, Eq, Debug, Structural)]
pub enum Taint {
    Green,
    Yellow,
    Project,
    Secret,
    External,
    AgentGenerated,
}

/// The wire name of a taint.
pub open spec fn taint_text(t: Taint) -> Seq<char> {
    match t {
        Taint::Green => "green"@,
        Taint::Yellow => "yellow"@,
        Taint::Project => "project"@,
        Taint::Secret => "secret"@,
        Taint::External => "external"@,
        Taint::AgentGenerated => "agent_generated"@,
    }
}

/// The taint that a wire name stands for; any other text stands for `Green`.
pub open spec fn taint_of(s: Seq<char>) -> Taint {
    if s == "yellow"@ {
        Taint::Yellow
    } else if s == "project"@ {
        Taint::Project
    } else if s == "secret"@ {
        Taint::Secret
    } else if s == "external"@ {
        Taint::External
    } else if s == "agent_generated"@ {
        Taint::AgentGenerated
    } else {
        Taint::Green
    }
}

impl Taint {
    /// The wire name of this taint.
    pub fn as_str(&self) -> (r: &'static str)
        ensures
            r@ == taint_text(*self),
    {
        match self {
            Taint::Green => "green",
            Taint::Yellow => "yellow",
            Taint::Project => "project",
            Taint::Secret => "secret",
            Taint::External => "external",
            Taint::AgentGenerated => "agent_generated",
        }
    }

    /// The taint that a wire name stands for.
    pub fn parse(s: &str) -> (r: Taint)
        ensures
            r == taint_of(s@),
    {
        if str_eq(s, "yellow") {
            Taint::Yellow
        } else if str_eq(s, "project") {
            Taint::Project
        } else if str_eq(s, "secret") {
            Taint::Secret
        } else if str_eq(s, "external") {
            Taint::External
        } else if str_eq(s, "agent_generated") {
            Taint::AgentGenerated
        } else {
            Taint::Green
        }
    }

    /// Whether data so labelled must not leave.
    pub fn is_sensitive(&self) -> (r: bool)
        ensures
            r == (*self == Taint::Secret),
    {
        *self == Taint::Secret
    }
}

/// Reading a taint's wire name back gives the taint.
pub proof fn law_taint_round_trip(t: Taint)
    ensures
        taint_of(taint_text(t)) == t,
{
    reveal_strlit("green");
    reveal_strlit("yellow");
    reveal_strlit("project");
    reveal_strlit("secret");
    reveal_strlit("external");
    reveal_strlit("agent_generated");
    assert("green"@[0] == 'g');
    assert("yellow"@[0] == 'y');
    assert("project"@[0] == 'p');
    assert("secret"@[0] == 's');
    assert("external"@[0] == 'e');
    assert("agent_generated"@[0] == 'a');
}

/// What a capability allows.
#[derive(Clone, Copy, PartialEq, Eq, Debug, Structural)]
pub enum Op {
    Read,
    Write,
    Delete,
    List,
    Exec,
}

/// The operation that a name stands for, white space around it ignored.
pub open spec fn op_of(s: Seq<char>) -> Option<Op> {
    let t = text::trimmed(s);
    if t == "read"@ {
        Some(Op::Read)
    } else if t == "write"@ {
        Some(Op::Write)
    } else if t == "delete"@ {
        Some(Op::Delete)
    } else if t == "list"@ {
        Some(Op::List)
    } else if t == "exec"@ {
        Some(Op::Exec)
    } else {
        None
    }
}

/// The operations that the names in a list stand for, unknown names left out.
pub open spec fn ops_of(parts: Seq<Seq<char>>) -> Seq<Op>
    decreases parts.len(),
{
    if parts.len() == 0 {
        Seq::empty()
    } else {
        match op_of(parts.last()) {
            Some(op) => ops_of(parts.drop_last()).push(op),
            None => ops_of(parts.drop_last()),
        }
    }
}

/// The operation that a name stands for.
fn parse_op(s: &str) -> (r: Option<Op>)
    ensures
        r == op_of(s@),
{
    let t = trim(s);
    if str_eq(t.as_str(), "read") {
        Some(Op::Read)
    } else if str_eq(t.as_str(), "write") {
        Some(Op::Write)
    } else if str_eq(t.as_str(), "delete") {
        Some(Op::Delete)
    } else if str_eq(t.as_str(), "list") {
        Some(Op::List)
    } else if str_eq(t.as_str(), "exec") {
        Some(Op::Exec)
    } else {
        None
    }
}

/// The operations named in a comma-separated list, in order; names that are
/// not known are left out.
pub fn parse_ops(csv: &str) -> (r: Vec<Op>)
    ensures
        r@ == ops_of(text::split_on(csv@, ',')),
{
    let parts = split(csv, ',');
    let mut out: Vec<Op> = Vec::new();
    let mut i: usize = 0;
    while i < parts.len()
        invariant
            i <= parts@.len(),
            out@ == ops_of(text::views(parts@).take(i as int)),
        decreases parts@.len() - i,
    {
        assert(text::views(parts@).take(i + 1).drop_last() =~= text::views(parts@).take(i as int));
        assert(text::views(parts@).take(i + 1).last() == parts@[i as int]@);
        match parse_op(parts[i].as_str()) {
            Some(op) => {
                out.push(op);
            },
            None => {},
        }
        i += 1;
    }
    assert(text::views(parts@).take(parts@.len() as int) =~= text::views(parts@));
    out
}

/// Tells whether an operation is in a list.
pub fn has_op(ops: &[Op], op: Op) -> (r: bool)
    ensures
        r == ops@.contains(op),
{
    let mut i: usize = 0;
    while i < ops.len()
        invariant
            i <= ops@.len(),
            forall|j: int| 0 <= j < i ==> ops@[j] != op,
        decreases ops@.len() - i,
    {
        if ops[i] == op {
            return true;
        }
        i += 1;
    }
    false
}

/// A copy of a list of operations.
pub fn clone_ops(ops: &[Op]) -> (r: Vec<Op>)
    ensures
        r@ == ops@,
{
    vstd::slice::slice_to_vec(ops)
}

/// A text that names no taint stands for the harmless one.
pub proof fn law_unknown_taint(s: Seq<char>)
    requires
        s != "yellow"@ && s != "project"@ && s != "secret"@ && s != "external"@ && s != "agent_generated"@,
    ensures
        taint_of(s) == Taint::Green,
{
}

} // verus!

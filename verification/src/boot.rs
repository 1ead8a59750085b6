//! Starting up: which role a thread plays, and what a worker is told.

use vstd::prelude::*;

use crate::text::{decimal_text, join, same};

verus! {

/// What a thread does when its module starts.
#[derive(Clone, Copy, Debug, PartialEq, Eq)]
pub enum Boot {
    /// A worker waits for its role.
    Wait,
    /// The page cannot run threads.
    Fatal,
    /// Build the page.
    Start,
}

/// What a thread does when its module starts: threads need a page that is isolated and has shared
/// memory.
pub fn boot(is_worker: bool, isolated: bool, has_shared_memory: bool) -> (b: Boot)
    ensures
        b == (if is_worker {
            Boot::Wait
        } else if isolated && has_shared_memory {
            Boot::Start
        } else {
            Boot::Fatal
        }),
{
    if is_worker {
        Boot::Wait
    } else if !isolated || !has_shared_memory {
        Boot::Fatal
    } else {
        Boot::Start
    }
}

/// What a worker is for.
#[derive(Clone, Copy, Debug, PartialEq, Eq)]
pub enum Role {
    Render,
    Physics,
    PhysicsTask,
    Unknown,
}

/// What a worker is for, by the name of its role.
pub open spec fn role_named(name: Seq<char>) -> Role {
    if name == "render"@ {
        Role::Render
    } else if name == "physics"@ {
        Role::Physics
    } else if name == "physics-task"@ {
        Role::PhysicsTask
    } else {
        Role::Unknown
    }
}

/// What a worker is for, by the name of its role.
pub fn worker_role(name: &str) -> (role: Role)
    ensures
        role == role_named(name@),
        role is Render <==> name@ == "render"@,
        role is Physics <==> name@ == "physics"@,
        role is PhysicsTask <==> name@ == "physics-task"@,
{
    proof {
        names_are_distinct();
    }
    if same(name, "render") {
        Role::Render
    } else if same(name, "physics") {
        Role::Physics
    } else if same(name, "physics-task") {
        Role::PhysicsTask
    } else {
        Role::Unknown
    }
}

/// The name of a role, as a worker is started with it.
pub open spec fn name_of(role: Role) -> Seq<char> {
    match role {
        Role::Render => "render"@,
        Role::Physics => "physics"@,
        Role::PhysicsTask => "physics-task"@,
        Role::Unknown => ""@,
    }
}

/// The name of a role, as a worker is started with it.
pub fn role_name(role: Role) -> (name: &'static str)
    ensures
        name@ == name_of(role),
        role is Render ==> name@ == "render"@,
        role is Physics ==> name@ == "physics"@,
        role is PhysicsTask ==> name@ == "physics-task"@,
        role is Unknown ==> name@.len() == 0,
{
    proof {
        names_are_distinct();
    }
    match role {
        Role::Render => "render",
        Role::Physics => "physics",
        Role::PhysicsTask => "physics-task",
        Role::Unknown => "",
    }
}

/// A worker that is started with the name of a role plays that role.
pub proof fn roles_are_told_apart(role: Role)
    ensures
        role_named(name_of(role)) == role,
{
    names_are_distinct();
}

/// A role is given by its own name and by no other, and a name that is none of the three gives no
/// role.
pub proof fn roles_go_by_their_names(name: Seq<char>)
    ensures
        role_named(name) is Render <==> name == "render"@,
        role_named(name) is Physics <==> name == "physics"@,
        role_named(name) is PhysicsTask <==> name == "physics-task"@,
{
    names_are_distinct();
}

/// The names of the roles differ by their length.
proof fn names_are_distinct()
    ensures
        "render"@.len() == 6,
        "physics"@.len() == 7,
        "physics-task"@.len() == 12,
        ""@.len() == 0,
{
    reveal_strlit("render");
    reveal_strlit("physics");
    reveal_strlit("physics-task");
    reveal_strlit("");
}

/// Where a pool worker finds its pool, and its number: a pool address is needed, the number is
/// zero where none was given.
pub fn task_worker(pool: Option<usize>, index: Option<usize>) -> (r: Result<
    (usize, usize),
    &'static str,
>)
    ensures
        match r {
            Ok((p, i)) => pool == Some(p) && i == (match index {
                Some(n) => n,
                None => 0,
            }),
            Err(e) => pool is None && e@ == "physics-task: missing pool address"@,
        },
{
    match pool {
        Some(p) => Ok(
            (
                p,
                match index {
                    Some(n) => n,
                    None => 0,
                },
            ),
        ),
        None => Err("physics-task: missing pool address"),
    }
}

/// What went wrong in a worker, and where.
pub fn worker_error(message: &str, file: &str, line: u32) -> (text: String)
    ensures
        text@ == "worker error: "@ + message@ + " ("@ + file@ + ":"@ + crate::text::decimal(
            line as nat,
        ) + ")"@,
{
    let mut text = join("worker error: ", message);
    text.append(" (");
    text.append(file);
    text.append(":");
    text.append(decimal_text(line as u64).as_str());
    text.append(")");
    text
}

/// A worker waits for its role whatever the page can do; a page starts exactly when it is isolated
/// and has shared memory, and is told off otherwise.
pub proof fn pages_start_when_threads_can_run(
    worker: bool,
    isolated: bool,
    shared: bool,
    b: Boot,
)
    requires
        call_ensures(boot, (worker, isolated, shared), b),
    ensures
        b is Wait <==> worker,
        b is Start <==> !worker && isolated && shared,
        b is Fatal <==> !worker && !(isolated && shared),
{
}

/// A worker that is started with the name of a role plays that role.
pub proof fn workers_play_their_role(role: Role, name: &'static str, played: Role)
    requires
        call_ensures(role_name, (role,), name),
        call_ensures(worker_role, (name,), played),
    ensures
        played == role,
{
    roles_are_told_apart(role);
}

/// A pool worker needs a pool; its number is the one that it was given, and zero without one.
pub proof fn pool_workers_need_a_pool(
    pool: Option<usize>,
    index: Option<usize>,
    r: Result<(usize, usize), &'static str>,
)
    requires
        call_ensures(task_worker, (pool, index), r),
    ensures
        r is Ok <==> pool is Some,
        r matches Ok(found) ==> pool == Some(found.0) && (index matches Some(n) ==> found.1 == n)
            && (index is None ==> found.1 == 0),
{
}

} // verus!

//! The lock that benchmarks and project scripts share.
//!
//! The lock is held on a file that is never removed, so that a crashed holder leaves no lock
//! behind. The `owner` file next to it only explains who holds it.
use crate::number::Number;
use crate::numeral::{is_writer, write_number, written};
use crate::paths::{join_path, joined_path, parent, parent_path};
use crate::perf::{file_name, name_of_file};
use crate::text::{
    append, append_str, chars_of, decimal, decimal_of, lines, lines_of, same, signed_decimal,
    signed_decimal_of, string_of, views,
};
use vstd::prelude::*;

verus! {

/// The variable that tells a process that its parent holds the lock.
pub const HELD_ENV: &'static str = "ISUSCOPE_LOCK_HELD";

/// The exit status when another live operation holds the lock.
pub const BUSY_EXIT_CODE: u8 = 75;

/// Another operation holds the lock.
#[derive(Debug)]
pub struct LockBusy {
    pub path: String,
    pub owner: String,
}

/// Some lines, each indented on a line of its own.
pub open spec fn indented(all: Seq<Seq<char>>) -> Seq<char>
    decreases all.len(),
{
    if all.len() == 0 {
        Seq::empty()
    } else {
        indented(all.drop_last()) + "\n  "@ + all.last()
    }
}

impl LockBusy {
    pub open spec fn text(self) -> Seq<char> {
        "another modifying operation is running: "@ + self.path@ + indented(lines(self.owner@))
    }

    /// What is said to the user: who holds the lock.
    pub fn message(&self) -> (r: String)
        ensures
            r@ == self.text(),
    {
        let all = lines_of(chars_of(self.owner.as_str()).as_slice());
        let ghost owner = lines(self.owner@);
        let mut out = chars_of("another modifying operation is running: ");
        append_str(&mut out, self.path.as_str());
        let ghost start = out@;
        let mut i: usize = 0;
        assert(views(all@).len() == all@.len());
        assert(owner.take(0) == Seq::<Seq<char>>::empty());
        assert(start + indented(owner.take(0)) == start);
        while i < all.len()
            invariant
                i <= all@.len(),
                owner == views(all@),
                out@ == start + indented(owner.take(i as int)),
            decreases all.len() - i,
        {
            let ghost head = indented(owner.take(i as int));
            append_str(&mut out, "\n  ");
            append(&mut out, all[i].as_slice());
            proof {
                assert(owner[i as int] == all@[i as int]@);
                assert(owner.take(i + 1).drop_last() == owner.take(i as int));
                assert(owner.take(i + 1).last() == owner[i as int]);
                assert(start + head + "\n  "@ + owner[i as int] == start + (head + "\n  "@
                    + owner[i as int]));
            }
            i += 1;
        }
        assert(owner.take(i as int) == owner);
        string_of(out.as_slice())
    }
}

/// Tells by the value of the variable whether a parent process holds the lock.
pub fn held_by_parent(value: &Option<String>) -> (r: bool)
    ensures
        r == (value matches Some(text) && text@ == "1"@),
{
    match value {
        Some(text) => same(text.as_str(), "1"),
        None => false,
    }
}

/// What the `owner` file says.
pub fn owner_text(pid: u32, started_at: &str, operation: &str) -> (r: String)
    ensures
        r@ == "pid="@ + decimal(pid as nat) + "\nstarted_at="@ + started_at@ + "\noperation="@
            + operation@ + "\n"@,
{
    let mut out = chars_of("pid=");
    append(&mut out, decimal_of(pid as u64).as_slice());
    append_str(&mut out, "\nstarted_at=");
    append_str(&mut out, started_at);
    append_str(&mut out, "\noperation=");
    append_str(&mut out, operation);
    append_str(&mut out, "\n");
    string_of(out.as_slice())
}

/// The name of the operation that a program performs: its file name, or all of its name.
pub open spec fn operation_of(program: Seq<char>) -> Seq<char> {
    match file_name(program) {
        Some(name) => name,
        None => program,
    }
}

/// A command that is to run while the lock is held.
#[derive(Debug)]
pub struct LockedCommand {
    pub program: String,
    pub arguments: Vec<String>,
    pub operation: String,
}

/// Splits a command into the program and its arguments.
pub fn run_locked(command: &Vec<String>) -> (r: Result<LockedCommand, String>)
    ensures
        match r {
            Ok(run) => {
                &&& command@.len() > 0
                &&& run.program@ == command@[0]@
                &&& crate::text::texts(run.arguments@) == crate::text::texts(command@).skip(1)
                &&& run.operation@ == operation_of(command@[0]@)
            },
            Err(error) => command@.len() == 0 && error@
                == "isuscope lock requires a command after --"@,
        },
{
    if command.len() == 0 {
        return Err("isuscope lock requires a command after --".to_owned());
    }
    let ghost rest = crate::text::texts(command@).skip(1);
    let mut arguments: Vec<String> = Vec::new();
    let mut i: usize = 1;
    assert(crate::text::texts(arguments@) == rest.take(0));
    while i < command.len()
        invariant
            1 <= i <= command@.len(),
            rest == crate::text::texts(command@).skip(1),
            crate::text::texts(arguments@) == rest.take(i - 1),
        decreases command.len() - i,
    {
        assert(rest[i - 1] == command@[i as int]@);
        crate::config::push_text(&mut arguments, command[i].as_str());
        assert(rest.take(i as int) == rest.take(i - 1).push(rest[i - 1]));
        i += 1;
    }
    assert(rest.take(i - 1) == rest);
    let operation = match name_of_file(chars_of(command[0].as_str()).as_slice()) {
        Some(name) => string_of(name.as_slice()),
        None => command[0].clone(),
    };
    Ok(LockedCommand { program: command[0].clone(), arguments, operation })
}

/// The exit status of a command that ended: that of the process, or the signal that ended it.
pub fn exit_code(code: Option<i32>, signal: Option<i32>) -> (r: i32)
    requires
        signal matches Some(number) ==> number <= i32::MAX - 128,
    ensures
        r == (match code {
            Some(c) => c as int,
            None => match signal {
                Some(number) => 128 + number,
                None => 128,
            },
        }),
{
    match code {
        Some(c) => c,
        None => match signal {
            Some(number) => 128 + number,
            None => 128,
        },
    }
}

/// Where the times of the operations are kept: next to the lock.
pub open spec fn timing_file(lock: Seq<char>) -> Seq<char> {
    join_path(
        if file_name(lock) is Some && parent(lock) is Some {
            parent(lock)->0
        } else {
            lock
        },
        "operation-timing.tsv"@,
    )
}

pub fn timing_path(lock: &str) -> (r: String)
    ensures
        r@ == timing_file(lock@),
{
    let named = name_of_file(chars_of(lock).as_slice()).is_some();
    match parent_path(lock) {
        Some(dir) => if named {
            joined_path(dir.as_str(), "operation-timing.tsv")
        } else {
            joined_path(lock, "operation-timing.tsv")
        },
        None => joined_path(lock, "operation-timing.tsv"),
    }
}

/// The line that is kept of an operation, so that slow steps can be measured later.
pub fn timing_line<S: Fn(Number, u32) -> String>(
    started_at: &str,
    operation: &str,
    seconds: Number,
    code: i32,
    show: &S,
) -> (r: String)
    requires
        is_writer(*show),
    ensures
        r@ == started_at@ + "\t"@ + operation@ + "\t"@ + written(*show)(seconds, 1) + "\t"@
            + signed_decimal(code as int) + "\n"@,
{
    let mut out = chars_of(started_at);
    append_str(&mut out, "\t");
    append_str(&mut out, operation);
    append_str(&mut out, "\t");
    append_str(&mut out, write_number(show, seconds, 1).as_str());
    append_str(&mut out, "\t");
    append(&mut out, signed_decimal_of(code as i64).as_slice());
    append_str(&mut out, "\n");
    string_of(out.as_slice())
}

} // verus!

//! The command model: an outbound verb plus an ordered, growable argument
//! list, and the scripted-evaluation builder with its key-count rule.

use vstd::prelude::*;
use vstd::utf8::encode_utf8;
use crate::args::{BulkString, CommandArgs, SingleArg, SingleArgCollection, ToArgs};
use crate::digits::dec_int;

verus! {

/// An outbound command: a verb and its raw arguments. Mutated only by
/// appends, never by removal.
pub struct Command {
    name: Vec<u8>,
    args: CommandArgs,
}

impl Command {
    /// The verb's wire bytes.
    pub closed spec fn name_view(&self) -> Seq<u8> {
        self.name@
    }

    /// The raw arguments, in append order.
    pub closed spec fn args_view(&self) -> Seq<Seq<u8>> {
        self.args@
    }

    /// Append one value's raw arguments; the verb never changes.
    pub fn arg<T: ToArgs>(self, a: T) -> (r: Self)
        ensures
            r.name_view() == self.name_view(),
            r.args_view() == self.args_view() + a.args_view(),
    {
        let Command { name, mut args } = self;
        a.write_args(&mut args);
        Command { name, args }
    }

    /// The number of raw arguments appended so far.
    pub fn num_args(&self) -> (n: usize)
        ensures
            n == self.args_view().len(),
    {
        self.args.len()
    }

    /// The raw argument at index `i`.
    pub fn get_arg(&self, i: usize) -> (r: &Vec<u8>)
        requires
            i < self.args_view().len(),
        ensures
            r@ == self.args_view()[i as int],
    {
        self.args.get(i)
    }

    /// The verb's wire bytes.
    pub fn name_bytes(&self) -> (r: &Vec<u8>)
        ensures
            r@ == self.name_view(),
    {
        &self.name
    }
}

/// Build a command from its verb.
pub fn cmd(name: &str) -> (r: Command)
    ensures
        r.name_view() == encode_utf8(name@),
        r.args_view() == Seq::<Seq<u8>>::empty(),
{
    Command { name: vstd::slice::slice_to_vec(name.as_bytes()), args: CommandArgs::new() }
}

/// Commands related to server-side scripting.
pub trait ScriptingCommands {
    /// Evaluate a script given by its source text.
    fn eval(&self, script: BulkString) -> (r: Eval<'_, Self>)
        ensures
            r.cmd_view().name_view() == encode_utf8("EVAL"@),
            r.cmd_view().args_view() == seq![script@],
            !r.keys_declared(),
    {
        Eval::new(self, cmd("EVAL").arg(script))
    }

    /// Evaluate a script from the server's cache by its digest.
    fn evalsha(&self, sha1: BulkString) -> (r: Eval<'_, Self>)
        ensures
            r.cmd_view().name_view() == encode_utf8("EVALSHA"@),
            r.cmd_view().args_view() == seq![sha1@],
            !r.keys_declared(),
    {
        Eval::new(self, cmd("EVALSHA").arg(sha1))
    }

    /// Load a script into the server's cache without executing it; the
    /// caller sends the returned command and receives the script's digest.
    fn script_load(&self, script: BulkString) -> (r: Command)
        ensures
            r.name_view() == encode_utf8("SCRIPT"@),
            r.args_view() == seq![encode_utf8("LOAD"@), script@],
    {
        cmd("SCRIPT").arg("LOAD").arg(script)
    }
}

/// Builder for a scripted-evaluation command. If no keys are ever declared,
/// an explicit zero key-count field is inserted before the first non-key
/// argument; once any key-count field is written, later appends never
/// re-insert it.
pub struct Eval<'a, T: ?Sized> {
    scripting_commands: &'a T,
    cmd: Command,
    keys_added: bool,
}

impl<'a, T: ?Sized> Eval<'a, T> {
    /// The command built so far.
    pub closed spec fn cmd_view(&self) -> Command {
        self.cmd
    }

    /// Whether a key-count field has already been written.
    pub closed spec fn keys_declared(&self) -> bool {
        self.keys_added
    }

    pub fn new(scripting_commands: &'a T, cmd: Command) -> (r: Self)
        ensures
            r.cmd_view() == cmd,
            !r.keys_declared(),
    {
        Eval { scripting_commands, cmd, keys_added: false }
    }

    /// Declare the keys the script accesses: appends the key count, then
    /// one argument per key.
    pub fn keys<K: SingleArg, C: SingleArgCollection<K>>(self, keys: C) -> (r: Self)
        ensures
            r.cmd_view().name_view() == self.cmd_view().name_view(),
            r.cmd_view().args_view() == self.cmd_view().args_view() + seq![
                dec_int(keys.args_view().len() as int),
            ] + keys.args_view(),
            r.keys_declared(),
    {
        proof {
            keys.lemma_args_fit();
        }
        let n = keys.num_args();
        Eval {
            scripting_commands: self.scripting_commands,
            cmd: self.cmd.arg(n).arg(keys),
            keys_added: true,
        }
    }

    /// Append non-key arguments. If no key-count field has been written
    /// yet, an explicit zero key count is inserted first.
    pub fn args<A: SingleArg, C: SingleArgCollection<A>>(self, args: C) -> (r: Self)
        ensures
            r.cmd_view().name_view() == self.cmd_view().name_view(),
            !self.keys_declared() ==> r.cmd_view().args_view() == self.cmd_view().args_view()
                + seq![dec_int(0)] + args.args_view(),
            self.keys_declared() ==> r.cmd_view().args_view() == self.cmd_view().args_view()
                + args.args_view(),
            r.keys_declared(),
    {
        let new_cmd = if !self.keys_added {
            let zero: usize = 0;
            self.cmd.arg(zero).arg(args)
        } else {
            self.cmd.arg(args)
        };
        Eval { scripting_commands: self.scripting_commands, cmd: new_cmd, keys_added: true }
    }

    /// Hand back the finished command for the caller to send.
    pub fn execute(self) -> (r: Command)
        ensures
            r == self.cmd_view(),
    {
        self.cmd
    }
}

} // verus!

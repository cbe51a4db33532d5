//! The shell's command registry: named commands with a description and an
//! opaque handler handle, looked up by name. Names are byte strings; the
//! screen side of the shell lives outside this library.

use vstd::prelude::*;

verus! {

/// One registered command.
pub struct Command {
    pub name: Vec<u8>,
    pub handler: u64,
    pub desc: Vec<u8>,
}

/// The handler registered under `name`, searching from the front.
pub open spec fn lookup(s: Seq<Command>, name: Seq<u8>) -> Option<u64>
    decreases s.len(),
{
    if s.len() == 0 {
        None
    } else if s[0].name@ == name {
        Some(s[0].handler)
    } else {
        lookup(s.drop_first(), name)
    }
}


/// Byte-string equality.
fn bytes_eq(a: &Vec<u8>, b: &Vec<u8>) -> (r: bool)
    ensures
        r == (a@ == b@),
{
    if a.len() != b.len() {
        proof {
            assert(a@ != b@);
        }
        return false;
    }
    let n = a.len();
    let mut i: usize = 0;
    while i < n
        invariant
            n == a.len() && n == b.len(),
            0 <= i <= n,
            forall|j: int| 0 <= j < i ==> a@[j] == b@[j],
        decreases n - i,
    {
        if a[i] != b[i] {
            proof {
                assert(a@[i as int] != b@[i as int]);
            }
            return false;
        }
        i = i + 1;
    }
    proof {
        assert(a@ =~= b@);
    }
    true
}

/// The commands the shell knows.
pub struct CommandRegistry {
    pub commands: Vec<Command>,
}

impl CommandRegistry {
    /// An empty registry.
    pub fn new() -> (r: CommandRegistry)
        ensures
            r.commands@ == Seq::<Command>::empty(),
            forall|n: Seq<u8>| lookup(r.commands@, n) is None,
    {
        let r = CommandRegistry { commands: Vec::new() };
        proof {
            assert forall|n: Seq<u8>| lookup(r.commands@, n) is None by {
                assert(r.commands@.len() == 0);
            }
        }
        r
    }

    /// Register `handler` (with its description) under `name`: a later
    /// lookup of `name` finds it, and no other name's handler changes. An
    /// existing command of the same name is replaced.
    pub fn register_command(&mut self, name: Vec<u8>, handler: u64, desc: Vec<u8>)
        ensures
            lookup(final(self).commands@, name@) == Some(handler),
            forall|n: Seq<u8>|
                n != name@ ==> lookup(final(self).commands@, n) == lookup(
                    old(self).commands@,
                    n,
                ),
    {
        let ghost pre = self.commands@;
        self.commands.insert(0, Command { name, handler, desc });
        proof {
            assert(self.commands@.drop_first() =~= pre);
        }
    }

    /// The handler registered under `name`: the executable counterpart of
    /// `lookup`.
    pub fn get_handler(&self, name: &Vec<u8>) -> (r: Option<u64>)
        ensures
            r == lookup(self.commands@, name@),
    {
        let n = self.commands.len();
        let mut i: usize = 0;
        proof {
            assert(self.commands@.skip(0) =~= self.commands@);
        }
        while i < n
            invariant
                n == self.commands.len(),
                0 <= i <= n,
                lookup(self.commands@, name@) == lookup(self.commands@.skip(i as int), name@),
            decreases n - i,
        {
            proof {
                assert(self.commands@.skip(i as int)[0] == self.commands@[i as int]);
                assert(self.commands@.skip(i as int).drop_first() =~= self.commands@.skip(
                    i as int + 1,
                ));
            }
            if bytes_eq(&self.commands[i].name, name) {
                return Some(self.commands[i].handler);
            }
            i = i + 1;
        }
        proof {
            assert(self.commands@.skip(n as int) =~= Seq::<Command>::empty());
        }
        None
    }
}


/// A byte the tokenizer treats as whitespace.
pub open spec fn is_space(b: u8) -> bool {
    b == 32 || b == 9
}

/// The first index at or after `i` holding a non-space byte (or the length).
pub open spec fn first_non_space(s: Seq<u8>, i: int) -> int
    decreases s.len() - i,
{
    if i < 0 || i >= s.len() {
        i
    } else if is_space(s[i]) {
        first_non_space(s, i + 1)
    } else {
        i
    }
}

/// The first index at or after `i` holding a space (or the length).
pub open spec fn token_end(s: Seq<u8>, i: int) -> int
    decreases s.len() - i,
{
    if i < 0 || i >= s.len() {
        i
    } else if is_space(s[i]) {
        i
    } else {
        token_end(s, i + 1)
    }
}

/// The command word of an input line: its first whitespace-separated token.
pub open spec fn first_token(s: Seq<u8>) -> Option<Seq<u8>> {
    let st = first_non_space(s, 0);
    if st >= s.len() {
        None
    } else {
        Some(s.subrange(st, token_end(s, st)))
    }
}

/// The built-in help command's name.
pub open spec fn help_name() -> Seq<u8> {
    seq![104u8, 101u8, 108u8, 112u8]
}

/// What entering a line makes the shell do.
#[derive(Clone, Copy, PartialEq, Eq, Structural, Debug)]
pub enum ShellAction {
    /// A blank line: nothing to run.
    Empty,
    /// The built-in help listing.
    Help,
    /// A registered command's handler.
    Run { handler: u64 },
    /// A command word nobody registered.
    Unknown,
}

impl CommandRegistry {
    /// Decide what an entered line runs: nothing for a blank line, the
    /// built-in help for `help`, the registered handler for a known command
    /// word, and an unknown-command report otherwise.
    pub fn exec(&self, input: &Vec<u8>) -> (action: ShellAction)
        ensures
            action == (match first_token(input@) {
                None => ShellAction::Empty,
                Some(tok) => if tok == help_name() {
                    ShellAction::Help
                } else {
                    match lookup(self.commands@, tok) {
                        Some(h) => ShellAction::Run { handler: h },
                        None => ShellAction::Unknown,
                    }
                },
            }),
    {
        let ghost s = input@;
        let n = input.len();
        let mut i: usize = 0;
        while i < n && (input[i] == 32 || input[i] == 9)
            invariant
                s == input@,
                n == input.len(),
                0 <= i <= n,
                first_non_space(s, 0) == first_non_space(s, i as int),
            decreases n - i,
        {
            proof {
                assert(is_space(s[i as int]));
                assert(first_non_space(s, i as int) == first_non_space(s, i as int + 1));
            }
            i = i + 1;
        }
        proof {
            assert(first_non_space(s, i as int) == i);
        }
        if i == n {
            return ShellAction::Empty;
        }
        let mut j: usize = i;
        let mut tok: Vec<u8> = Vec::new();
        while j < n && !(input[j] == 32 || input[j] == 9)
            invariant
                s == input@,
                n == input.len(),
                0 <= i <= j <= n,
                token_end(s, i as int) == token_end(s, j as int),
                tok@ =~= s.subrange(i as int, j as int),
            decreases n - j,
        {
            proof {
                assert(!is_space(s[j as int]));
                assert(token_end(s, j as int) == token_end(s, j as int + 1));
            }
            tok.push(input[j]);
            proof {
                assert(tok@ =~= s.subrange(i as int, j as int + 1));
            }
            j = j + 1;
        }
        proof {
            assert(token_end(s, j as int) == j);
            assert(first_token(s) == Some(s.subrange(i as int, j as int)));
        }
        let is_help = tok.len() == 4 && tok[0] == 104 && tok[1] == 101 && tok[2] == 108 && tok[3]
            == 112;
        proof {
            if is_help {
                assert(tok@ =~= help_name());
            } else {
                assert(tok@ != help_name());
            }
        }
        if is_help {
            return ShellAction::Help;
        }
        match self.get_handler(&tok) {
            Some(h) => ShellAction::Run { handler: h },
            None => ShellAction::Unknown,
        }
    }
}

/// What one key makes the line editor do; the screen side carries it out.
#[derive(Clone, Copy, PartialEq, Eq, Structural, Debug)]
pub enum ShellEffect {
    /// Echo the byte that was appended to the line.
    Echo(u8),
    /// The line was submitted: run this action, then show a fresh prompt.
    Submit(ShellAction),
    /// The last byte was erased.
    Backspace,
    /// The key does nothing (unrecognized input is ignored, not crashed on).
    Ignored,
}

/// The line editor: the bytes typed so far and the cursor column.
pub struct Shell {
    pub input: Vec<u8>,
    pub cursor: u16,
}

impl Shell {
    /// An empty line.
    pub fn new() -> (sh: Shell)
        ensures
            sh.input@ == Seq::<u8>::empty(),
            sh.cursor == 0,
    {
        Shell { input: Vec::new(), cursor: 0 }
    }

    /// One decoded key arrives: a printable character is appended and
    /// echoed; a newline submits the line to the command registry and
    /// clears it; backspace erases one byte when there is one; everything
    /// else — control characters, raw key codes — is ignored, not crashed
    /// on.
    pub fn keyboard_handler(
        &mut self,
        key: crate::keyboard::KeyInput,
        registry: &CommandRegistry,
    ) -> (effect: ShellEffect)
        requires
            old(self).cursor < 0xFFFF,
        ensures
            (match key {
                crate::keyboard::KeyInput::Char(c) => {
                    let b = c as u8;
                    if 0x20 <= c as u32 <= 0x7e {
                        &&& effect == ShellEffect::Echo(b)
                        &&& final(self).input@ == old(self).input@.push(b)
                        &&& final(self).cursor == old(self).cursor + 1
                    } else if c as u32 == 10 {
                        &&& effect == ShellEffect::Submit(
                            spec_exec_action(registry.commands@, old(self).input@),
                        )
                        &&& final(self).input@ == Seq::<u8>::empty()
                        &&& final(self).cursor == 1
                    } else if c as u32 == 8 {
                        if old(self).cursor > 0 {
                            &&& effect == ShellEffect::Backspace
                            &&& final(self).input@ == (if old(self).input@.len() > 0 {
                                old(self).input@.drop_last()
                            } else {
                                old(self).input@
                            })
                            &&& final(self).cursor == old(self).cursor - 1
                        } else {
                            effect == ShellEffect::Ignored && *final(self) == *old(self)
                        }
                    } else {
                        effect == ShellEffect::Ignored && *final(self) == *old(self)
                    }
                },
                crate::keyboard::KeyInput::Raw(_) => effect == ShellEffect::Ignored && *final(self)
                    == *old(self),
            }),
    {
        match key {
            crate::keyboard::KeyInput::Char(c) => {
                let code = c as u32;
                if 0x20 <= code && code <= 0x7e {
                    let b = c as u8;
                    self.cursor = self.cursor + 1;
                    self.input.push(b);
                    ShellEffect::Echo(b)
                } else if code == 10 {
                    let action = registry.exec(&self.input);
                    self.input = Vec::new();
                    self.cursor = 1;
                    ShellEffect::Submit(action)
                } else if code == 8 {
                    if self.cursor > 0 {
                        self.cursor = self.cursor - 1;
                        let ghost pre = self.input@;
                        if self.input.len() > 0 {
                            self.input.pop();
                            proof {
                                assert(self.input@ =~= pre.drop_last());
                            }
                        }
                        ShellEffect::Backspace
                    } else {
                        ShellEffect::Ignored
                    }
                } else {
                    ShellEffect::Ignored
                }
            },
            crate::keyboard::KeyInput::Raw(_) => ShellEffect::Ignored,
        }
    }
}

/// What `exec` decides, at the specification level.
pub open spec fn spec_exec_action(commands: Seq<Command>, input: Seq<u8>) -> ShellAction {
    match first_token(input) {
        None => ShellAction::Empty,
        Some(tok) => if tok == help_name() {
            ShellAction::Help
        } else {
            match lookup(commands, tok) {
                Some(h) => ShellAction::Run { handler: h },
                None => ShellAction::Unknown,
            }
        },
    }
}


/// The built-in test program's command name.
pub open spec fn test_name() -> Seq<u8> {
    seq![116u8, 101u8, 115u8, 116u8]
}

/// Bring the shell up: install its keyboard callback (replacing any previous
/// one), register the built-in test program, and hand back the empty line
/// editor with its command registry. The screen edge then prints the prompt.
pub fn init_shell(
    handlers: &mut crate::handlers::HandlerRegistry,
    keyboard_callback: u64,
    test_program: u64,
) -> (r: (Shell, CommandRegistry))
    ensures
        *final(handlers) == crate::handlers::with_keyboard(*old(handlers), keyboard_callback),
        r.0.input@ == Seq::<u8>::empty(),
        r.0.cursor == 0,
        lookup(r.1.commands@, test_name()) == Some(test_program),
{
    handlers.register_keyboard_handler(keyboard_callback);
    let shell = Shell::new();
    let mut commands = CommandRegistry::new();
    let mut name: Vec<u8> = Vec::new();
    name.push(116);
    name.push(101);
    name.push(115);
    name.push(116);
    let mut desc: Vec<u8> = Vec::new();
    desc.push(116);
    desc.push(101);
    desc.push(115);
    desc.push(116);
    proof {
        assert(name@ =~= test_name());
    }
    commands.register_command(name, test_program, desc);
    (shell, commands)
}

} // verus!

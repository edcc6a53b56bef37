//! The command registry and the dispatcher.
//!
//! The dispatcher decides; it sends nothing. It returns what to send, or which command
//! to run, and the caller reports the command's result back through [`respond`].

use crate::role::Role;
use crate::text::{decimal, push_decimal, push_str, string_of};
use crate::users::{provisioned, stored_role, verdict, UserTable, UserView};
use vstd::prelude::*;

verus! {

/// A registered command.
#[derive(Clone, Debug, PartialEq, Eq)]
pub struct CommandDescriptor {
    /// The token that calls the command, matched whole and case-sensitively.
    pub trigger: String,
    /// The only channel in which the command may be called, if it has one.
    pub channel: Option<u64>,
    /// The lowest role that may call the command.
    pub permission: Role,
    /// The least number of arguments, the trigger not counted.
    pub argument_min: usize,
    /// The greatest number of arguments, the trigger not counted.
    pub argument_max: usize,
    /// The usage text shown when the number of arguments is out of bounds.
    pub usage: String,
    /// The caller's key for the behaviour to run.
    pub handler: u32,
}

/// What a command descriptor holds.
pub struct CommandView {
    pub trigger: Seq<char>,
    pub channel: Option<u64>,
    pub permission: Role,
    pub argument_min: usize,
    pub argument_max: usize,
    pub usage: Seq<char>,
    pub handler: u32,
}

impl View for CommandDescriptor {
    type V = CommandView;

    open spec fn view(&self) -> CommandView {
        CommandView {
            trigger: self.trigger@,
            channel: self.channel,
            permission: self.permission,
            argument_min: self.argument_min,
            argument_max: self.argument_max,
            usage: self.usage@,
            handler: self.handler,
        }
    }
}

/// Whether `commands` holds a command called by `token`.
pub open spec fn registered(commands: Seq<CommandView>, token: Seq<char>) -> bool {
    exists|i: int| 0 <= i < commands.len() && #[trigger] commands[i].trigger == token
}

/// The position of the first command called by `token`, if there is one.
pub open spec fn matching(commands: Seq<CommandView>, token: Seq<char>) -> Option<int>
    decreases commands.len(),
{
    if commands.len() == 0 {
        None
    } else {
        match matching(commands.drop_last(), token) {
            Some(i) => Some(i),
            None => if commands.last().trigger == token {
                Some(commands.len() - 1)
            } else {
                None
            },
        }
    }
}

/// A well-formed registry: no trigger is registered twice, and the bounds of each
/// command are in order.
pub open spec fn well_formed(commands: Seq<CommandView>) -> bool {
    &&& forall|i: int, j: int|
        0 <= i < j < commands.len() ==> (#[trigger] commands[i]).trigger != (
        #[trigger] commands[j]).trigger
    &&& forall|i: int|
        0 <= i < commands.len() ==> (#[trigger] commands[i]).argument_min
            <= commands[i].argument_max
}

/// `matching` gives the first command called by `token`, and none exactly when no
/// command is called by it.
pub proof fn lemma_matching(commands: Seq<CommandView>, token: Seq<char>)
    ensures
        match matching(commands, token) {
            Some(i) => 0 <= i < commands.len() && commands[i].trigger == token && forall|j: int|
                0 <= j < i ==> (#[trigger] commands[j]).trigger != token,
            None => forall|j: int|
                0 <= j < commands.len() ==> (#[trigger] commands[j]).trigger != token,
        },
        matching(commands, token) is Some <==> registered(commands, token),
    decreases commands.len(),
{
    if commands.len() > 0 {
        lemma_matching(commands.drop_last(), token);
        assert(forall|j: int|
            0 <= j < commands.len() - 1 ==> commands.drop_last()[j] == commands[j]);
    }
}

/// Why a command was not registered.
#[derive(Clone, Copy, Debug, PartialEq, Eq, Structural)]
pub enum RegisterError {
    /// The least number of arguments is above the greatest.
    InvalidBounds,
    /// A command with this trigger is registered already.
    DuplicateTrigger,
}

/// Who calls, and where.
#[derive(Clone, Copy, Debug, PartialEq, Eq, Structural)]
pub struct Invocation {
    pub author: u64,
    pub channel: u64,
}

/// What the dispatcher decided about one tokenised message.
#[derive(Clone, Copy, Debug, PartialEq, Eq, Structural)]
pub enum Dispatch {
    /// No command is called by the first token.
    Unhandled,
    /// The command may only be called in the channel `allowed`.
    WrongChannel { command: usize, allowed: u64 },
    /// The caller's role, `role`, is too low, or its stored name denotes none.
    Denied { command: usize, role: Option<Role> },
    /// Fewer arguments than the command's least.
    NotEnoughArguments { command: usize },
    /// More arguments than the command's greatest.
    TooManyArguments { command: usize },
    /// The command is to be run with the whole token list.
    Invoke { command: usize },
}

/// The decision on `tokens`, called by `inv`, with the registry `commands` and the user
/// table `users`: the first token picks the command; then the channel, the caller's role
/// and the number of arguments are checked, in this order.
pub open spec fn decision(
    commands: Seq<CommandView>,
    users: Seq<UserView>,
    tokens: Seq<Seq<char>>,
    inv: Invocation,
) -> Dispatch {
    if tokens.len() == 0 {
        Dispatch::Unhandled
    } else {
        match matching(commands, tokens[0]) {
            None => Dispatch::Unhandled,
            Some(i) => {
                let c = commands[i];
                let gate = verdict(stored_role(users, inv.author), c.permission);
                let n = tokens.len() - 1;
                if !channel_fits(c.channel, inv.channel) {
                    Dispatch::WrongChannel { command: i as usize, allowed: c.channel->0 }
                } else if !gate.allowed {
                    Dispatch::Denied { command: i as usize, role: gate.role }
                } else if n < c.argument_min {
                    Dispatch::NotEnoughArguments { command: i as usize }
                } else if n > c.argument_max {
                    Dispatch::TooManyArguments { command: i as usize }
                } else {
                    Dispatch::Invoke { command: i as usize }
                }
            },
        }
    }
}

/// Whether a command restricted to `command_channel` may be called in
/// `message_channel`: it may where it is not restricted, or restricted to that channel.
pub open spec fn channel_fits(command_channel: Option<u64>, message_channel: u64) -> bool {
    command_channel matches Some(c) ==> c == message_channel
}

/// Whether the permission gate was reached on the way to `d`.
pub open spec fn reached_gate(d: Dispatch) -> bool {
    !(d is Unhandled) && !(d is WrongChannel)
}

/// The user table after the decision: the caller has a record once the permission gate
/// was reached, and nothing else changes.
pub open spec fn users_after(
    commands: Seq<CommandView>,
    users: Seq<UserView>,
    tokens: Seq<Seq<char>>,
    inv: Invocation,
) -> Seq<UserView> {
    if reached_gate(decision(commands, users, tokens, inv)) {
        provisioned(users, inv.author)
    } else {
        users
    }
}

/// The texts of a list of strings.
pub open spec fn texts(v: Seq<String>) -> Seq<Seq<char>> {
    v.map_values(|s: String| s@)
}

/// One outbound action. A dispatch leads to at most one.
#[derive(Clone, Debug, PartialEq, Eq)]
pub enum Action {
    /// Nothing is sent.
    Nothing,
    /// A message to the channel of the invocation.
    Say(String),
    /// A reply addressed to the invoker.
    Reply(String),
    /// A reaction on the invoking message.
    React(char),
}

/// What an action holds.
pub enum ActionView {
    Nothing,
    Say(Seq<char>),
    Reply(Seq<char>),
    React(char),
}

impl View for Action {
    type V = ActionView;

    open spec fn view(&self) -> ActionView {
        match self {
            Action::Nothing => ActionView::Nothing,
            Action::Say(s) => ActionView::Say(s@),
            Action::Reply(s) => ActionView::Reply(s@),
            Action::React(c) => ActionView::React(*c),
        }
    }
}

/// The name of a role in a notice; `unknown` where the stored name denotes none.
pub open spec fn role_word(role: Option<Role>) -> Seq<char> {
    match role {
        Some(r) => r.label(),
        None => "unknown"@,
    }
}

/// The notice that sends a caller to the channel `allowed`.
pub open spec fn redirect_text(allowed: u64) -> Seq<char> {
    "I am not allowed to issue this command in this channel ! Use <#"@ + decimal(allowed as nat)
        + "> instead."@
}

/// The notice that names the caller's role.
pub open spec fn denial_text(role: Option<Role>) -> Seq<char> {
    "You("@ + role_word(role) + ") are not allowed to run this command"@
}

/// The reply to a call with too few arguments.
pub open spec fn underflow_text(usage: Seq<char>) -> Seq<char> {
    "No enough arguments\nUsage: "@ + usage
}

/// The reply to a call with too many arguments.
pub open spec fn overflow_text(usage: Seq<char>) -> Seq<char> {
    "Too many arguments\nUsage: "@ + usage
}

/// What the dispatcher sends for the decision `d`: nothing where no command matched or
/// the command is to be run, a notice to the channel for a wrong channel or a denial, a
/// reply with the usage text for a wrong number of arguments (and nothing for a
/// decision that names a command which `commands` does not hold).
pub open spec fn notice(commands: Seq<CommandView>, d: Dispatch) -> ActionView {
    match d {
        Dispatch::Unhandled => ActionView::Nothing,
        Dispatch::Invoke { .. } => ActionView::Nothing,
        Dispatch::WrongChannel { allowed, .. } => ActionView::Say(redirect_text(allowed)),
        Dispatch::Denied { role, .. } => ActionView::Say(denial_text(role)),
        Dispatch::NotEnoughArguments { command } => if command < commands.len() {
            ActionView::Reply(underflow_text(commands[command as int].usage))
        } else {
            ActionView::Nothing
        },
        Dispatch::TooManyArguments { command } => if command < commands.len() {
            ActionView::Reply(overflow_text(commands[command as int].usage))
        } else {
            ActionView::Nothing
        },
    }
}

/// The position that `d` names, if it names one.
pub open spec fn command_of(d: Dispatch) -> Option<usize> {
    match d {
        Dispatch::Unhandled => None,
        Dispatch::WrongChannel { command, .. } => Some(command),
        Dispatch::Denied { command, .. } => Some(command),
        Dispatch::NotEnoughArguments { command } => Some(command),
        Dispatch::TooManyArguments { command } => Some(command),
        Dispatch::Invoke { command } => Some(command),
    }
}

/// Whether a command restricted to `command_channel` may be called in
/// `message_channel`.
pub fn allowed_channel(command_channel: Option<u64>, message_channel: u64) -> (b: bool)
    ensures
        b == channel_fits(command_channel, message_channel),
{
    match command_channel {
        Some(chan) => chan == message_channel,
        None => true,
    }
}

/// A dispatch: the decision, and what to send for it.
#[derive(Clone, Debug, PartialEq, Eq)]
pub struct Dispatched {
    pub decision: Dispatch,
    pub action: Action,
}

impl Dispatched {
    /// Whether the message was handled: its first token called a command.
    pub fn handled(&self) -> (b: bool)
        ensures
            b == !(self.decision is Unhandled),
    {
        match self.decision {
            Dispatch::Unhandled => false,
            _ => true,
        }
    }
}

/// The commands, in the order of their registration.
pub struct Registry {
    commands: Vec<CommandDescriptor>,
}

impl View for Registry {
    type V = Seq<CommandView>;

    closed spec fn view(&self) -> Seq<CommandView> {
        self.commands@.map_values(|c: CommandDescriptor| c@)
    }
}

impl Registry {
    /// The invariant of the registry: it is well formed.
    pub open spec fn wf(&self) -> bool {
        well_formed(self@)
    }

    /// A registry without commands.
    pub fn new() -> (r: Registry)
        ensures
            r@ == Seq::<CommandView>::empty(),
            r.wf(),
    {
        let commands: Vec<CommandDescriptor> = Vec::new();
        assert(commands@.map_values(|c: CommandDescriptor| c@) =~= Seq::<CommandView>::empty());
        Registry { commands }
    }

    /// The number of commands.
    pub fn len(&self) -> (n: usize)
        ensures
            n == self@.len(),
    {
        self.commands.len()
    }

    /// The command at position `i`.
    pub fn get(&self, i: usize) -> (c: Option<&CommandDescriptor>)
        ensures
            match c {
                Some(c) => i < self@.len() && c@ == self@[i as int],
                None => i >= self@.len(),
            },
    {
        if i < self.commands.len() {
            Some(&self.commands[i])
        } else {
            None
        }
    }

    /// The position of the command called by `token`.
    pub fn lookup(&self, token: &String) -> (r: Option<usize>)
        ensures
            match r {
                Some(i) => matching(self@, token@) == Some(i as int),
                None => matching(self@, token@) is None,
            },
    {
        let mut i: usize = 0;
        while i < self.commands.len()
            invariant
                i <= self.commands.len(),
                forall|j: int| 0 <= j < i ==> (#[trigger] self@[j]).trigger != token@,
            decreases self.commands.len() - i,
        {
            if self.commands[i].trigger == *token {
                proof {
                    assert(self@[i as int] == self.commands@[i as int]@);
                    lemma_matching(self@, token@);
                }
                return Some(i);
            }
            i += 1;
        }
        proof {
            lemma_matching(self@, token@);
        }
        None
    }

    /// Registers `command` behind the commands registered so far. Refused, with the
    /// registry unchanged, when the bounds are out of order or the trigger is taken.
    pub fn register(&mut self, command: CommandDescriptor) -> (r: Result<(), RegisterError>)
        requires
            old(self).wf(),
        ensures
            final(self).wf(),
            match r {
                Ok(_) => final(self)@ == old(self)@.push(command@),
                Err(_) => final(self)@ == old(self)@,
            },
            r == if command.argument_min > command.argument_max {
                Err::<(), RegisterError>(RegisterError::InvalidBounds)
            } else if registered(old(self)@, command.trigger@) {
                Err::<(), RegisterError>(RegisterError::DuplicateTrigger)
            } else {
                Ok::<(), RegisterError>(())
            },
    {
        proof {
            lemma_matching(self@, command.trigger@);
        }
        if command.argument_min > command.argument_max {
            return Err(RegisterError::InvalidBounds);
        }
        match self.lookup(&command.trigger) {
            Some(_) => Err(RegisterError::DuplicateTrigger),
            None => {
                let ghost before = self@;
                let ghost added = command@;
                self.commands.push(command);
                proof {
                    assert(self@ =~= before.push(added));
                    assert(well_formed(self@)) by {
                        assert forall|i: int, j: int| 0 <= i < j < self@.len() implies (
                        #[trigger] self@[i]).trigger != (#[trigger] self@[j]).trigger by {
                            if j < before.len() {
                                assert(self@[i] == before[i] && self@[j] == before[j]);
                            } else {
                                assert(self@[i] == before[i]);
                            }
                        }
                        assert forall|i: int| 0 <= i < self@.len() implies (
                        #[trigger] self@[i]).argument_min <= self@[i].argument_max by {
                            if i < before.len() {
                                assert(self@[i] == before[i]);
                            }
                        }
                    }
                }
                Ok(())
            },
        }
    }

    /// Decides what becomes of `tokens`, called by `inv`. The caller's record is made on
    /// first contact when the permission gate is reached.
    pub fn decide(&self, users: &mut UserTable, tokens: &Vec<String>, inv: &Invocation) -> (d:
        Dispatch)
        ensures
            d == decision(self@, old(users)@, texts(tokens@), *inv),
            final(users)@ == users_after(self@, old(users)@, texts(tokens@), *inv),
            command_of(d) matches Some(i) ==> i < self@.len(),
    {
        if tokens.len() == 0 {
            return Dispatch::Unhandled;
        }
        assert(texts(tokens@)[0] == tokens@[0]@);
        proof {
            lemma_matching(self@, tokens@[0]@);
        }
        match self.lookup(&tokens[0]) {
            None => Dispatch::Unhandled,
            Some(i) => {
                let c = &self.commands[i];
                assert(self@[i as int] == c@);
                if !allowed_channel(c.channel, inv.channel) {
                    return Dispatch::WrongChannel { command: i, allowed: c.channel.unwrap() };
                }
                let gate = users.authorize(inv.author, c.permission);
                if !gate.allowed {
                    return Dispatch::Denied { command: i, role: gate.role };
                }
                let n: usize = tokens.len() - 1;
                if n < c.argument_min {
                    Dispatch::NotEnoughArguments { command: i }
                } else if n > c.argument_max {
                    Dispatch::TooManyArguments { command: i }
                } else {
                    Dispatch::Invoke { command: i }
                }
            },
        }
    }

    /// What to send for the decision `d`.
    pub fn announce(&self, d: &Dispatch) -> (a: Action)
        ensures
            a@ == notice(self@, *d),
    {
        match d {
            Dispatch::Unhandled => Action::Nothing,
            Dispatch::Invoke { .. } => Action::Nothing,
            Dispatch::WrongChannel { allowed, .. } => {
                let mut out: Vec<char> = Vec::new();
                push_str(
                    &mut out,
                    "I am not allowed to issue this command in this channel ! Use <#",
                );
                push_decimal(&mut out, *allowed);
                push_str(&mut out, "> instead.");
                assert(out@ =~= redirect_text(*allowed));
                Action::Say(string_of(&out))
            },
            Dispatch::Denied { role, .. } => {
                let mut out: Vec<char> = Vec::new();
                push_str(&mut out, "You(");
                match role {
                    Some(r) => push_str(&mut out, r.name()),
                    None => push_str(&mut out, "unknown"),
                }
                push_str(&mut out, ") are not allowed to run this command");
                assert(out@ =~= denial_text(*role));
                Action::Say(string_of(&out))
            },
            Dispatch::NotEnoughArguments { command } => {
                if *command >= self.commands.len() {
                    return Action::Nothing;
                }
                let c = &self.commands[*command];
                assert(self@[*command as int] == c@);
                let mut out: Vec<char> = Vec::new();
                push_str(&mut out, "No enough arguments\nUsage: ");
                push_str(&mut out, c.usage.as_str());
                assert(out@ =~= underflow_text(c.usage@));
                Action::Reply(string_of(&out))
            },
            Dispatch::TooManyArguments { command } => {
                if *command >= self.commands.len() {
                    return Action::Nothing;
                }
                let c = &self.commands[*command];
                assert(self@[*command as int] == c@);
                let mut out: Vec<char> = Vec::new();
                push_str(&mut out, "Too many arguments\nUsage: ");
                push_str(&mut out, c.usage.as_str());
                assert(out@ =~= overflow_text(c.usage@));
                Action::Reply(string_of(&out))
            },
        }
    }

    /// Dispatches `tokens`, called by `inv`: the decision, and what to send for it.
    pub fn dispatch(&self, users: &mut UserTable, tokens: &Vec<String>, inv: &Invocation) -> (r:
        Dispatched)
        ensures
            r.decision == decision(self@, old(users)@, texts(tokens@), *inv),
            r.action@ == notice(self@, r.decision),
            final(users)@ == users_after(self@, old(users)@, texts(tokens@), *inv),
            command_of(r.decision) matches Some(i) ==> i < self@.len(),
    {
        let d = self.decide(users, tokens, inv);
        let action = self.announce(&d);
        Dispatched { decision: d, action }
    }
}

/// What a command hands back: nothing to say, a text, or the reason of a failure.
pub open spec fn result_texts(result: Result<Option<String>, String>) -> Result<
    Option<Seq<char>>,
    Seq<char>,
> {
    match result {
        Ok(None) => Ok(None),
        Ok(Some(text)) => Ok(Some(text@)),
        Err(reason) => Err(reason@),
    }
}

/// What is sent for the result of a command: nothing for a silent success, a fixed
/// acknowledging reaction for the text `:ok:`, a reply with any other text, and a fixed
/// apology for a failure.
pub open spec fn reaction_to(result: Result<Option<Seq<char>>, Seq<char>>) -> ActionView {
    match result {
        Ok(None) => ActionView::Nothing,
        Ok(Some(text)) => if text == ":ok:"@ {
            ActionView::React('\u{2705}')
        } else {
            ActionView::Reply(text)
        },
        Err(_) => ActionView::Reply("Bipboop this is broken <@173013989180178432>"@),
    }
}

/// What is recorded for the operator: the reason of a failure, with the trigger of the
/// command that failed, and nothing for a success.
pub open spec fn record_of(trigger: Seq<char>, result: Result<Option<Seq<char>>, Seq<char>>)
    -> Option<Seq<char>> {
    match result {
        Ok(_) => None,
        Err(reason) => Some("Command Error: "@ + trigger + " => "@ + reason),
    }
}

/// The follow-up of a command that was run.
#[derive(Clone, Debug, PartialEq, Eq)]
pub struct Response {
    /// What to send to the invoker.
    pub action: Action,
    /// What to record for the operator, never shown to the invoker.
    pub log: Option<String>,
}

/// Maps the result of the command called by `trigger` to what is sent and what is
/// recorded.
pub fn respond(trigger: &str, result: Result<Option<String>, String>) -> (r: Response)
    ensures
        r.action@ == reaction_to(result_texts(result)),
        match r.log {
            Some(line) => record_of(trigger@, result_texts(result)) == Some(line@),
            None => record_of(trigger@, result_texts(result)) is None,
        },
{
    match result {
        Ok(None) => Response { action: Action::Nothing, log: None },
        Ok(Some(text)) => {
            if crate::text::same_text(text.as_str(), ":ok:") {
                Response { action: Action::React('\u{2705}'), log: None }
            } else {
                Response { action: Action::Reply(text), log: None }
            }
        },
        Err(reason) => {
            let mut line: Vec<char> = Vec::new();
            push_str(&mut line, "Command Error: ");
            push_str(&mut line, trigger);
            push_str(&mut line, " => ");
            push_str(&mut line, reason.as_str());
            Response {
                action: Action::Reply(
                    "Bipboop this is broken <@173013989180178432>".to_owned(),
                ),
                log: Some(string_of(&line)),
            }
        },
    }
}

/// A tokenised message is handled exactly when its first token is a registered trigger.
/// In a well-formed registry that trigger belongs to exactly one command, which is the
/// one that the decision names; a command is run only for such a token.
pub proof fn lemma_handled_iff_registered(
    commands: Seq<CommandView>,
    users: Seq<UserView>,
    tokens: Seq<Seq<char>>,
    inv: Invocation,
)
    requires
        well_formed(commands),
    ensures
        !(decision(commands, users, tokens, inv) is Unhandled) <==> tokens.len() > 0
            && registered(commands, tokens[0]),
        decision(commands, users, tokens, inv) is Unhandled ==> users_after(
            commands,
            users,
            tokens,
            inv,
        ) == users && notice(commands, decision(commands, users, tokens, inv))
            == ActionView::Nothing,
        forall|i: int|
            0 <= i < commands.len() && tokens.len() > 0 && (#[trigger] commands[i]).trigger
                == tokens[0] ==> command_of(decision(commands, users, tokens, inv)) == Some(
                i as usize,
            ),
{
    if tokens.len() > 0 {
        lemma_matching(commands, tokens[0]);
    }
}

/// The bounds of a command decide whether it is run. Once the first token has picked
/// the command at `i`, the channel fits and the caller's role suffices, the command is
/// run exactly when the number of arguments lies within its bounds; below them the
/// reply says that arguments are missing, above them that there are too many, each
/// with the usage text.
pub proof fn lemma_invoked_iff_within_bounds(
    commands: Seq<CommandView>,
    users: Seq<UserView>,
    tokens: Seq<Seq<char>>,
    inv: Invocation,
    i: int,
)
    requires
        well_formed(commands),
        commands.len() <= usize::MAX,
        tokens.len() > 0,
        0 <= i < commands.len(),
        commands[i].trigger == tokens[0],
        channel_fits(commands[i].channel, inv.channel),
        verdict(stored_role(users, inv.author), commands[i].permission).allowed,
    ensures
        ({
            let n = tokens.len() - 1;
            let d = decision(commands, users, tokens, inv);
            let c = commands[i];
            &&& d is Invoke <==> c.argument_min <= n <= c.argument_max
            &&& c.argument_min <= n <= c.argument_max ==> d == (Dispatch::Invoke {
                command: i as usize,
            })
            &&& n < c.argument_min ==> d == (Dispatch::NotEnoughArguments { command: i as usize })
                && notice(commands, d) == ActionView::Reply(underflow_text(c.usage))
            &&& n > c.argument_max ==> d == (Dispatch::TooManyArguments { command: i as usize })
                && notice(commands, d) == ActionView::Reply(overflow_text(c.usage))
        }),
{
    lemma_matching(commands, tokens[0]);
}

} // verus!

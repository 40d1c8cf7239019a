//! What the user asks for on the command line.

use crate::store::{ManagerView, TaskManager};
use crate::store_laws::lemma_complete;
use crate::text::{parse_u32, parse_u32_spec, push_char};
use vstd::prelude::*;
use vstd::string::StringExecFns;

verus! {

/// A request, as a mathematical value.
pub enum CommandView {
    Add(Seq<char>),
    List,
    Complete(nat),
    Unknown,
    Usage,
    Nothing,
}

/// A request of the user.
#[derive(Debug)]
pub enum Command {
    /// Add a task with this description.
    Add(String),
    /// Show the tasks.
    List,
    /// Mark the task with this identifier as done.
    Complete(u32),
    /// A word that names no command.
    Unknown,
    /// No command at all: the user is told how to call the program.
    Usage,
    /// A command that lacks what it needs, and so asks for nothing.
    Nothing,
}

/// What the program owes the user once a request is carried out.
#[derive(Debug)]
pub enum Reply {
    /// Nothing is to be said.
    Done,
    /// The tasks are to be shown.
    Show,
    /// There is no task with this identifier.
    NotFound(u32),
    /// The command is not known.
    Unknown,
    /// The user is to be told how to call the program.
    Usage,
}

impl View for Command {
    type V = CommandView;

    open spec fn view(&self) -> CommandView {
        match self {
            Command::Add(description) => CommandView::Add(description@),
            Command::List => CommandView::List,
            Command::Complete(id) => CommandView::Complete(*id as nat),
            Command::Unknown => CommandView::Unknown,
            Command::Usage => CommandView::Usage,
            Command::Nothing => CommandView::Nothing,
        }
    }
}

/// The words with one space between each two of them.
pub open spec fn join_words(words: Seq<Seq<char>>) -> Seq<char>
    decreases words.len(),
{
    if words.len() == 0 {
        Seq::empty()
    } else if words.len() == 1 {
        words[0]
    } else {
        join_words(words.drop_last()) + seq![' '] + words.last()
    }
}

/// The words of a command line as mathematical values.
pub open spec fn word_views(args: Seq<String>) -> Seq<Seq<char>> {
    args.map_values(|word: String| word@)
}

/// The request that a command line makes. The first word is the name of the
/// program and the second the command. `add` takes the words after it as the
/// description; `complete` takes the next word as a 32-bit identifier; either
/// asks for nothing when that is missing, or is no such number.
pub open spec fn command_of(args: Seq<Seq<char>>) -> CommandView {
    if args.len() <= 1 {
        CommandView::Usage
    } else if args[1] == "add"@ {
        if args.len() > 2 {
            CommandView::Add(join_words(args.skip(2)))
        } else {
            CommandView::Nothing
        }
    } else if args[1] == "list"@ {
        CommandView::List
    } else if args[1] == "complete"@ {
        if args.len() > 2 {
            match parse_u32_spec(args[2]) {
                Some(id) => CommandView::Complete(id as nat),
                None => CommandView::Nothing,
            }
        } else {
            CommandView::Nothing
        }
    } else {
        CommandView::Unknown
    }
}

/// The store after a request has been carried out: adding a task and marking
/// one as done change it, and nothing else does.
pub open spec fn effect_of(command: CommandView, store: ManagerView) -> ManagerView {
    match command {
        CommandView::Add(description) => store.add(description),
        CommandView::Complete(id) => store.complete(id),
        _ => store,
    }
}

/// What the program owes the user for a request, made of a store. A request
/// to mark a task as done is answered only where the store has no such task.
pub open spec fn reply_to(command: Command, store: ManagerView) -> Reply {
    match command {
        Command::List => Reply::Show,
        Command::Complete(id) => if store.position_of(id as nat) < store.tasks.len() {
            Reply::Done
        } else {
            Reply::NotFound(id)
        },
        Command::Unknown => Reply::Unknown,
        Command::Usage => Reply::Usage,
        _ => Reply::Done,
    }
}

/// The words `args[from..]` with one space between each two of them.
pub fn join_from(args: &Vec<String>, from: usize) -> (joined: String)
    requires
        from <= args.len(),
    ensures
        joined@ == join_words(word_views(args@).skip(from as int)),
{
    let ghost words = word_views(args@).skip(from as int);
    let mut joined = String::new();
    let mut at: usize = from;
    assert(words.take(0) =~= Seq::empty());
    while at < args.len()
        invariant
            from <= at <= args.len(),
            words == word_views(args@).skip(from as int),
            joined@ == join_words(words.take(at - from)),
        decreases args.len() - at,
    {
        let ghost seen = words.take(at - from + 1);
        assert(seen.drop_last() =~= words.take(at - from));
        assert(seen.last() == args@[at as int]@);
        if at > from {
            push_char(&mut joined, ' ');
        }
        joined.append(args[at].as_str());
        assert(joined@ =~= join_words(seen));
        at += 1;
    }
    assert(words.take(at - from) =~= words);
    joined
}

impl Command {
    /// Reads the request off a command line, the program's name included.
    pub fn parse(args: &Vec<String>) -> (command: Command)
        ensures
            command@ == command_of(word_views(args@)),
    {
        if args.len() <= 1 {
            return Command::Usage;
        }
        let word = &args[1];
        assert(word@ == word_views(args@)[1]);
        if *word == String::from_str("add") {
            if args.len() > 2 {
                Command::Add(join_from(args, 2))
            } else {
                Command::Nothing
            }
        } else if *word == String::from_str("list") {
            Command::List
        } else if *word == String::from_str("complete") {
            if args.len() > 2 {
                assert(args@[2]@ == word_views(args@)[2]);
                match parse_u32(args[2].as_str()) {
                    Some(id) => Command::Complete(id),
                    None => Command::Nothing,
                }
            } else {
                Command::Nothing
            }
        } else {
            Command::Unknown
        }
    }

    /// Carries the request out on a store, and says what the user is owed. To
    /// add a task, the counter must not have run past the 32-bit identifiers.
    pub fn run(self, store: &mut TaskManager) -> (reply: Reply)
        requires
            self is Add ==> old(store)@.next_id <= u32::MAX,
        ensures
            final(store)@ == effect_of(self@, old(store)@),
            reply == reply_to(self, old(store)@),
            old(store)@.well_formed() ==> final(store)@.well_formed(),
    {
        match self {
            Command::Add(description) => {
                store.add_task(description);
                Reply::Done
            },
            Command::List => Reply::Show,
            Command::Complete(id) => {
                proof {
                    lemma_complete(store@, id as nat);
                }
                if store.complete_task(id) {
                    Reply::Done
                } else {
                    Reply::NotFound(id)
                }
            },
            Command::Unknown => Reply::Unknown,
            Command::Usage => Reply::Usage,
            Command::Nothing => Reply::Done,
        }
    }
}

} // verus!

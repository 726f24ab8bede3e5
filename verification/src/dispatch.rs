//! From the flags of one invocation to the commands it asks for.
//!
//! Every flag that is present asks for one command. The commands are run one
//! after the other, in the order in which the flags are declared, whatever
//! the order in which they were typed; the first one that fails ends the run.

use vstd::prelude::*;

verus! {

/// The flags of one invocation, as the argument parser found them.
#[derive(Debug, Clone, PartialEq, Eq)]
pub struct Invocation {
    /// `--make_directory <name>`
    pub make_directory: Option<String>,
    /// `--make_file <name>`
    pub make_file: Option<String>,
    /// `--echo <text> [filename]`
    pub echo: Option<(String, Option<String>)>,
    /// `--list`
    pub list: bool,
    /// `--remove <filename>`
    pub remove: Option<String>,
    /// `--view_file <filename>`
    pub view_file: Option<String>,
    /// `--match_pattern <pattern> <filename>`
    pub match_pattern: Option<(String, String)>,
    /// `--remove_directory <name>`
    pub remove_directory: Option<String>,
    /// `--clear_terminal`
    pub clear_terminal: bool,
    /// `--copy_file <src> <dst>`
    pub copy_file: Option<(String, String)>,
    /// `--directory_path`
    pub directory_path: bool,
    /// `--date`
    pub date: bool,
    /// `--zip_directory <dir> <outputPath>`
    pub zip_directory: Option<(String, String)>,
    /// `--rename <old> <new>`
    pub rename: Option<(String, String)>,
}

/// The two values of a flag that takes exactly two, or nothing where
/// `values` are not two.
pub fn two_values(values: &Vec<String>) -> (pair: Option<(String, String)>)
    ensures
        match pair {
            Some((first, second)) => values.len() == 2 && first@ == values[0]@ && second@
                == values[1]@,
            None => values.len() != 2,
        },
{
    if values.len() == 2 {
        Some((values[0].clone(), values[1].clone()))
    } else {
        None
    }
}

/// The value of a flag that takes one value and may take a second, with the
/// second if it is there, or nothing where `values` are neither one nor two.
pub fn one_or_two_values(values: &Vec<String>) -> (pair: Option<(String, Option<String>)>)
    ensures
        match pair {
            Some((first, second)) => {
                &&& 1 <= values.len() <= 2
                &&& first@ == values[0]@
                &&& match second {
                    Some(text) => values.len() == 2 && text@ == values[1]@,
                    None => values.len() == 1,
                }
            },
            None => values.len() == 0 || values.len() > 2,
        },
{
    if values.len() == 1 {
        Some((values[0].clone(), None))
    } else if values.len() == 2 {
        Some((values[0].clone(), Some(values[1].clone())))
    } else {
        None
    }
}

/// One operation with its arguments.
#[derive(Debug, Clone, PartialEq, Eq)]
pub enum Command {
    MakeDirectory { name: String },
    MakeFile { name: String },
    Echo { text: String, filename: Option<String> },
    List,
    Remove { filename: String },
    ViewFile { filename: String },
    MatchPattern { pattern: String, filename: String },
    RemoveDirectory { name: String },
    ClearTerminal,
    CopyFile { filename: String, destination: String },
    DirectoryPath,
    Date,
    ZipDirectory { directory_name: String, output: String },
    Rename { filename: String, new_filename: String },
}

/// The mathematical content of a [`Command`].
pub enum CommandView {
    MakeDirectory { name: Seq<char> },
    MakeFile { name: Seq<char> },
    Echo { text: Seq<char>, filename: Option<Seq<char>> },
    List,
    Remove { filename: Seq<char> },
    ViewFile { filename: Seq<char> },
    MatchPattern { pattern: Seq<char>, filename: Seq<char> },
    RemoveDirectory { name: Seq<char> },
    ClearTerminal,
    CopyFile { filename: Seq<char>, destination: Seq<char> },
    DirectoryPath,
    Date,
    ZipDirectory { directory_name: Seq<char>, output: Seq<char> },
    Rename { filename: Seq<char>, new_filename: Seq<char> },
}

/// The content of a text that may be absent.
pub open spec fn text_view(text: Option<String>) -> Option<Seq<char>> {
    match text {
        Some(s) => Some(s@),
        None => None,
    }
}

impl View for Command {
    type V = CommandView;

    open spec fn view(&self) -> CommandView {
        match self {
            Command::MakeDirectory { name } => CommandView::MakeDirectory { name: name@ },
            Command::MakeFile { name } => CommandView::MakeFile { name: name@ },
            Command::Echo { text, filename } => CommandView::Echo {
                text: text@,
                filename: text_view(*filename),
            },
            Command::List => CommandView::List,
            Command::Remove { filename } => CommandView::Remove { filename: filename@ },
            Command::ViewFile { filename } => CommandView::ViewFile { filename: filename@ },
            Command::MatchPattern { pattern, filename } => CommandView::MatchPattern {
                pattern: pattern@,
                filename: filename@,
            },
            Command::RemoveDirectory { name } => CommandView::RemoveDirectory { name: name@ },
            Command::ClearTerminal => CommandView::ClearTerminal,
            Command::CopyFile { filename, destination } => CommandView::CopyFile {
                filename: filename@,
                destination: destination@,
            },
            Command::DirectoryPath => CommandView::DirectoryPath,
            Command::Date => CommandView::Date,
            Command::ZipDirectory { directory_name, output } => CommandView::ZipDirectory {
                directory_name: directory_name@,
                output: output@,
            },
            Command::Rename { filename, new_filename } => CommandView::Rename {
                filename: filename@,
                new_filename: new_filename@,
            },
        }
    }
}

/// The contents of a list of commands.
pub open spec fn commands_view(commands: Seq<Command>) -> Seq<CommandView> {
    commands.map_values(|c: Command| c@)
}

impl CommandView {
    /// The place of the command's flag in the order of declaration, from 0.
    pub open spec fn rank(self) -> nat {
        match self {
            CommandView::MakeDirectory { .. } => 0,
            CommandView::MakeFile { .. } => 1,
            CommandView::Echo { .. } => 2,
            CommandView::List => 3,
            CommandView::Remove { .. } => 4,
            CommandView::ViewFile { .. } => 5,
            CommandView::MatchPattern { .. } => 6,
            CommandView::RemoveDirectory { .. } => 7,
            CommandView::ClearTerminal => 8,
            CommandView::CopyFile { .. } => 9,
            CommandView::DirectoryPath => 10,
            CommandView::Date => 11,
            CommandView::ZipDirectory { .. } => 12,
            CommandView::Rename { .. } => 13,
        }
    }
}

/// The command that flag number `rank` of `invocation` asks for, if the flag
/// is present.
pub open spec fn asked(invocation: Invocation, rank: nat) -> Option<CommandView> {
    if rank == 0 {
        match invocation.make_directory {
            Some(name) => Some(CommandView::MakeDirectory { name: name@ }),
            None => None,
        }
    } else if rank == 1 {
        match invocation.make_file {
            Some(name) => Some(CommandView::MakeFile { name: name@ }),
            None => None,
        }
    } else if rank == 2 {
        match invocation.echo {
            Some((text, filename)) => Some(
                CommandView::Echo { text: text@, filename: text_view(filename) },
            ),
            None => None,
        }
    } else if rank == 3 {
        if invocation.list {
            Some(CommandView::List)
        } else {
            None
        }
    } else if rank == 4 {
        match invocation.remove {
            Some(filename) => Some(CommandView::Remove { filename: filename@ }),
            None => None,
        }
    } else if rank == 5 {
        match invocation.view_file {
            Some(filename) => Some(CommandView::ViewFile { filename: filename@ }),
            None => None,
        }
    } else if rank == 6 {
        match invocation.match_pattern {
            Some((pattern, filename)) => Some(
                CommandView::MatchPattern { pattern: pattern@, filename: filename@ },
            ),
            None => None,
        }
    } else if rank == 7 {
        match invocation.remove_directory {
            Some(name) => Some(CommandView::RemoveDirectory { name: name@ }),
            None => None,
        }
    } else if rank == 8 {
        if invocation.clear_terminal {
            Some(CommandView::ClearTerminal)
        } else {
            None
        }
    } else if rank == 9 {
        match invocation.copy_file {
            Some((filename, destination)) => Some(
                CommandView::CopyFile { filename: filename@, destination: destination@ },
            ),
            None => None,
        }
    } else if rank == 10 {
        if invocation.directory_path {
            Some(CommandView::DirectoryPath)
        } else {
            None
        }
    } else if rank == 11 {
        if invocation.date {
            Some(CommandView::Date)
        } else {
            None
        }
    } else if rank == 12 {
        match invocation.zip_directory {
            Some((directory_name, output)) => Some(
                CommandView::ZipDirectory { directory_name: directory_name@, output: output@ },
            ),
            None => None,
        }
    } else if rank == 13 {
        match invocation.rename {
            Some((filename, new_filename)) => Some(
                CommandView::Rename { filename: filename@, new_filename: new_filename@ },
            ),
            None => None,
        }
    } else {
        None
    }
}

/// The number of flags.
pub open spec fn flag_count() -> nat {
    14
}

/// The commands that the first `upto` flags of `invocation` ask for, in the
/// order of declaration.
pub open spec fn requested_upto(invocation: Invocation, upto: nat) -> Seq<CommandView>
    decreases upto,
{
    if upto == 0 {
        Seq::<CommandView>::empty()
    } else {
        let before = requested_upto(invocation, (upto - 1) as nat);
        match asked(invocation, (upto - 1) as nat) {
            Some(command) => before.push(command),
            None => before,
        }
    }
}

/// The commands that `invocation` asks for, in the order of declaration.
pub open spec fn requested(invocation: Invocation) -> Seq<CommandView> {
    requested_upto(invocation, flag_count())
}

/// Takes `command` into `commands` as the one that flag number `rank` asks
/// for.
fn take(
    commands: &mut Vec<Command>,
    command: Command,
    Ghost(invocation): Ghost<Invocation>,
    Ghost(rank): Ghost<nat>,
)
    requires
        commands_view(old(commands)@) == requested_upto(invocation, rank),
        asked(invocation, rank) == Some(command@),
    ensures
        commands_view(final(commands)@) == requested_upto(invocation, rank + 1),
{
    let ghost before = commands_view(commands@);
    commands.push(command);
    assert(commands_view(commands@) =~= before.push(command@));
}

/// Lists the commands that `invocation` asks for: one for each flag that is
/// present, in the order in which the flags are declared.
pub fn run(invocation: &Invocation) -> (commands: Vec<Command>)
    ensures
        commands_view(commands@) == requested(*invocation),
{
    let ghost inv = *invocation;
    let mut commands: Vec<Command> = Vec::new();
    assert(commands_view(commands@) =~= requested_upto(inv, 0));
    match &invocation.make_directory {
        Some(name) => take(
            &mut commands,
            Command::MakeDirectory { name: name.clone() },
            Ghost(inv),
            Ghost(0),
        ),
        None => {},
    }
    assert(commands_view(commands@) == requested_upto(inv, 1));
    match &invocation.make_file {
        Some(name) => take(
            &mut commands,
            Command::MakeFile { name: name.clone() },
            Ghost(inv),
            Ghost(1),
        ),
        None => {},
    }
    assert(commands_view(commands@) == requested_upto(inv, 2));
    match &invocation.echo {
        Some((text, filename)) => {
            let filename = match filename {
                Some(f) => Some(f.clone()),
                None => None,
            };
            take(&mut commands, Command::Echo { text: text.clone(), filename }, Ghost(inv), Ghost(2))
        },
        None => {},
    }
    assert(commands_view(commands@) == requested_upto(inv, 3));
    if invocation.list {
        take(&mut commands, Command::List, Ghost(inv), Ghost(3));
    }
    assert(commands_view(commands@) == requested_upto(inv, 4));
    match &invocation.remove {
        Some(filename) => take(
            &mut commands,
            Command::Remove { filename: filename.clone() },
            Ghost(inv),
            Ghost(4),
        ),
        None => {},
    }
    assert(commands_view(commands@) == requested_upto(inv, 5));
    match &invocation.view_file {
        Some(filename) => take(
            &mut commands,
            Command::ViewFile { filename: filename.clone() },
            Ghost(inv),
            Ghost(5),
        ),
        None => {},
    }
    assert(commands_view(commands@) == requested_upto(inv, 6));
    match &invocation.match_pattern {
        Some((pattern, filename)) => take(
            &mut commands,
            Command::MatchPattern { pattern: pattern.clone(), filename: filename.clone() },
            Ghost(inv),
            Ghost(6),
        ),
        None => {},
    }
    assert(commands_view(commands@) == requested_upto(inv, 7));
    match &invocation.remove_directory {
        Some(name) => take(
            &mut commands,
            Command::RemoveDirectory { name: name.clone() },
            Ghost(inv),
            Ghost(7),
        ),
        None => {},
    }
    assert(commands_view(commands@) == requested_upto(inv, 8));
    if invocation.clear_terminal {
        take(&mut commands, Command::ClearTerminal, Ghost(inv), Ghost(8));
    }
    assert(commands_view(commands@) == requested_upto(inv, 9));
    match &invocation.copy_file {
        Some((filename, destination)) => take(
            &mut commands,
            Command::CopyFile { filename: filename.clone(), destination: destination.clone() },
            Ghost(inv),
            Ghost(9),
        ),
        None => {},
    }
    assert(commands_view(commands@) == requested_upto(inv, 10));
    if invocation.directory_path {
        take(&mut commands, Command::DirectoryPath, Ghost(inv), Ghost(10));
    }
    assert(commands_view(commands@) == requested_upto(inv, 11));
    if invocation.date {
        take(&mut commands, Command::Date, Ghost(inv), Ghost(11));
    }
    assert(commands_view(commands@) == requested_upto(inv, 12));
    match &invocation.zip_directory {
        Some((directory_name, output)) => take(
            &mut commands,
            Command::ZipDirectory { directory_name: directory_name.clone(), output: output.clone() },
            Ghost(inv),
            Ghost(12),
        ),
        None => {},
    }
    assert(commands_view(commands@) == requested_upto(inv, 13));
    match &invocation.rename {
        Some((filename, new_filename)) => take(
            &mut commands,
            Command::Rename { filename: filename.clone(), new_filename: new_filename.clone() },
            Ghost(inv),
            Ghost(13),
        ),
        None => {},
    }
    assert(commands_view(commands@) == requested_upto(inv, 14));
    commands
}

/// What a run does next.
#[derive(Debug, Clone, Copy, PartialEq, Eq, Structural)]
pub enum Progress {
    /// Perform the command at this place of the list.
    Perform { index: usize },
    /// Stop, and leave with this exit code.
    Exit { code: u8 },
}

/// The exit code of a run in which every command succeeded.
pub const EXIT_SUCCESS: u8 = 0;

/// The exit code of a run that a failure has ended.
pub const EXIT_FAILURE: u8 = 1;

/// What a run of `count` commands does once the first `done` of them have
/// succeeded: it performs the next one, or has come to its end.
pub open spec fn after_success(count: nat, done: nat) -> Progress {
    if done < count {
        Progress::Perform { index: done as usize }
    } else {
        Progress::Exit { code: EXIT_SUCCESS }
    }
}

/// How a run of `commands` begins: with the first command, if there is one.
pub fn begin(commands: &Vec<Command>) -> (progress: Progress)
    ensures
        progress == after_success(commands.len() as nat, 0),
{
    if commands.len() > 0 {
        Progress::Perform { index: 0 }
    } else {
        Progress::Exit { code: EXIT_SUCCESS }
    }
}

/// How a run of `commands` goes on when the command at `index` has been
/// performed: a failure ends the run at once, and no later command is
/// performed; after a success the next command follows, or the run has come
/// to its end.
pub fn proceed(commands: &Vec<Command>, index: usize, succeeded: bool) -> (progress: Progress)
    ensures
        progress == if succeeded {
            after_success(commands.len() as nat, index as nat + 1)
        } else {
            Progress::Exit { code: EXIT_FAILURE }
        },
{
    if !succeeded {
        Progress::Exit { code: EXIT_FAILURE }
    } else if index < commands.len() && index + 1 < commands.len() {
        Progress::Perform { index: index + 1 }
    } else {
        Progress::Exit { code: EXIT_SUCCESS }
    }
}

/// The command a flag asks for carries the flag's rank.
pub proof fn lemma_asked_rank(invocation: Invocation, rank: nat)
    ensures
        asked(invocation, rank) matches Some(command) ==> command.rank() == rank && rank
            < flag_count(),
{
}

/// The commands of the first `upto` flags all rank below `upto`, and rank
/// rises strictly along the list.
pub proof fn lemma_ranks_rise(invocation: Invocation, upto: nat)
    ensures
        forall|i: int|
            0 <= i < requested_upto(invocation, upto).len() ==> (#[trigger] requested_upto(
                invocation,
                upto,
            )[i]).rank() < upto,
        forall|i: int, j: int|
            0 <= i < j < requested_upto(invocation, upto).len() ==> (#[trigger] requested_upto(
                invocation,
                upto,
            )[i]).rank() < (#[trigger] requested_upto(invocation, upto)[j]).rank(),
    decreases upto,
{
    if upto > 0 {
        lemma_ranks_rise(invocation, (upto - 1) as nat);
        lemma_asked_rank(invocation, (upto - 1) as nat);
        let before = requested_upto(invocation, (upto - 1) as nat);
        let all = requested_upto(invocation, upto);
        assert forall|i: int| 0 <= i < all.len() implies (#[trigger] all[i]).rank() < upto by {
            if i < before.len() {
                assert(all[i] == before[i]);
            }
        }
        assert forall|i: int, j: int| 0 <= i < j < all.len() implies (#[trigger] all[i]).rank() < (
        #[trigger] all[j]).rank() by {
            assert(all[i] == before[i]);
            if j < before.len() {
                assert(all[j] == before[j]);
            }
        }
    }
}

/// The commands of an invocation stand in the order in which their flags are
/// declared, and no flag gives more than one command.
pub proof fn law_declaration_order(invocation: Invocation)
    ensures
        forall|i: int, j: int|
            0 <= i < j < requested(invocation).len() ==> (#[trigger] requested(
                invocation,
            )[i]).rank() < (#[trigger] requested(invocation)[j]).rank(),
{
    lemma_ranks_rise(invocation, flag_count());
}

/// A command is among those of an invocation exactly if its flag is present
/// and asks for it.
pub proof fn law_one_command_per_flag(invocation: Invocation, command: CommandView)
    ensures
        requested(invocation).contains(command) <==> asked(invocation, command.rank()) == Some(
            command,
        ),
{
    lemma_contains_upto(invocation, flag_count(), command);
}

/// Among the commands of the first `upto` flags is exactly what those flags
/// ask for.
pub proof fn lemma_contains_upto(invocation: Invocation, upto: nat, command: CommandView)
    ensures
        requested_upto(invocation, upto).contains(command) <==> (command.rank() < upto && asked(
            invocation,
            command.rank(),
        ) == Some(command)),
    decreases upto,
{
    if upto > 0 {
        let before = requested_upto(invocation, (upto - 1) as nat);
        lemma_contains_upto(invocation, (upto - 1) as nat, command);
        lemma_asked_rank(invocation, (upto - 1) as nat);
        match asked(invocation, (upto - 1) as nat) {
            Some(last) => {
                let all = before.push(last);
                if all.contains(command) {
                    let i = choose|i: int| 0 <= i < all.len() && all[i] == command;
                    if i < before.len() {
                        assert(before[i] == command);
                    }
                }
                if before.contains(command) {
                    let i = choose|i: int| 0 <= i < before.len() && before[i] == command;
                    assert(all[i] == command);
                }
                if last == command {
                    assert(all[before.len() as int] == command);
                }
            },
            None => {},
        }
    }
}

} // verus!

//! Commands to run, and what is made of how they ended.
use crate::path::FilePath;
use crate::text;
use vstd::prelude::*;
use vstd::string::StringExecFns;

verus! {

/// A word handed to a command, as an argument or in its environment.
#[derive(Debug)]
pub enum Arg {
    Text(String),
    /// What is not known to be text, such as a path.
    Os(Vec<u8>),
}

/// A word handed to a command.
pub enum ArgView {
    Text(Seq<char>),
    Os(Seq<u8>),
}

impl View for Arg {
    type V = ArgView;

    open spec fn view(&self) -> ArgView {
        match self {
            Arg::Text(text) => ArgView::Text(text@),
            Arg::Os(bytes) => ArgView::Os(bytes@),
        }
    }
}

/// A variable of a command's environment.
#[derive(Debug)]
pub struct Variable {
    pub name: String,
    pub value: Arg,
}

/// A command to run.
#[derive(Debug)]
pub struct Command {
    pub program: String,
    /// Whether the command starts from an empty environment instead of from the
    /// one of this process.
    pub clear_env: bool,
    pub env: Vec<Variable>,
    /// The directory to run in; the one of this process where there is none.
    pub cwd: Option<FilePath>,
    pub args: Vec<Arg>,
}

/// A command to run.
#[verifier::ext_equal]
pub struct CommandView {
    pub program: Seq<char>,
    pub clear_env: bool,
    pub env: Seq<(Seq<char>, ArgView)>,
    pub cwd: Option<Seq<u8>>,
    pub args: Seq<ArgView>,
}

/// The contents of a list of words.
pub open spec fn arg_views(args: Seq<Arg>) -> Seq<ArgView> {
    args.map_values(|a: Arg| a@)
}

/// Texts as words of a command.
pub open spec fn text_args(texts: Seq<Seq<char>>) -> Seq<ArgView> {
    texts.map_values(|t: Seq<char>| ArgView::Text(t))
}

impl View for Command {
    type V = CommandView;

    open spec fn view(&self) -> CommandView {
        CommandView {
            program: self.program@,
            clear_env: self.clear_env,
            env: self.env@.map_values(|v: Variable| (v.name@, v.value@)),
            cwd: match self.cwd {
                Some(dir) => Some(dir@),
                None => None,
            },
            args: arg_views(self.args@),
        }
    }
}

impl CommandView {
    /// A command with nothing but its program.
    pub open spec fn plain(program: Seq<char>) -> CommandView {
        CommandView {
            program,
            clear_env: false,
            env: Seq::empty(),
            cwd: None,
            args: Seq::empty(),
        }
    }

    /// The command with more arguments.
    pub open spec fn with_args(self, args: Seq<ArgView>) -> CommandView {
        CommandView { args: self.args + args, ..self }
    }

    /// The command with one more variable in its environment.
    pub open spec fn with_env(self, name: Seq<char>, value: ArgView) -> CommandView {
        CommandView { env: self.env.push((name, value)), ..self }
    }

    /// The command in another directory.
    pub open spec fn in_dir(self, dir: Seq<u8>) -> CommandView {
        CommandView { cwd: Some(dir), ..self }
    }
}

impl Command {
    /// A command with nothing but its program.
    pub fn new(program: &str) -> (command: Command)
        ensures
            command@ == CommandView::plain(program@),
    {
        let command = Command {
            program: program.to_string(),
            clear_env: false,
            env: Vec::new(),
            cwd: None,
            args: Vec::new(),
        };
        assert(command@ =~= CommandView::plain(program@));
        command
    }

    /// Lets the command start from an empty environment.
    pub fn env_clear(&mut self)
        ensures
            final(self)@ == (CommandView { clear_env: true, env: Seq::empty(), ..old(self)@ }),
    {
        self.clear_env = true;
        self.env = Vec::new();
        assert(self@ =~= (CommandView { clear_env: true, env: Seq::empty(), ..old(self)@ }));
    }

    /// Puts a variable into the environment.
    pub fn env(&mut self, name: &str, value: Arg)
        ensures
            final(self)@ == old(self)@.with_env(name@, value@),
    {
        self.env.push(Variable { name: name.to_string(), value });
        assert(self@ =~= old(self)@.with_env(name@, value@));
    }

    /// Puts a path into the environment.
    pub fn env_path(&mut self, name: &str, value: &FilePath)
        ensures
            final(self)@ == old(self)@.with_env(name@, ArgView::Os(value@)),
    {
        self.env(name, Arg::Os(crate::path::copy_bytes(&value.bytes)));
    }

    /// Sets the directory.
    pub fn current_dir(&mut self, dir: &FilePath)
        ensures
            final(self)@ == old(self)@.in_dir(dir@),
    {
        self.cwd = Some(dir.copy());
        assert(self@ =~= old(self)@.in_dir(dir@));
    }

    /// Adds an argument.
    pub fn arg(&mut self, arg: &str)
        ensures
            final(self)@ == old(self)@.with_args(seq![ArgView::Text(arg@)]),
    {
        self.args.push(Arg::Text(arg.to_string()));
        assert(self@ =~= old(self)@.with_args(seq![ArgView::Text(arg@)]));
    }

    /// Adds a path as an argument.
    pub fn arg_path(&mut self, arg: &FilePath)
        ensures
            final(self)@ == old(self)@.with_args(seq![ArgView::Os(arg@)]),
    {
        self.args.push(Arg::Os(crate::path::copy_bytes(&arg.bytes)));
        assert(self@ =~= old(self)@.with_args(seq![ArgView::Os(arg@)]));
    }

    /// Adds several arguments.
    pub fn args(&mut self, args: &Vec<String>)
        ensures
            final(self)@ == old(self)@.with_args(text_args(text::strings(args@))),
    {
        let ghost words = text_args(text::strings(args@));
        let mut i: usize = 0;
        assert(self@ =~= old(self)@.with_args(words.take(0)));
        while i < args.len()
            invariant
                i <= args.len(),
                words == text_args(text::strings(args@)),
                self@ == old(self)@.with_args(words.take(i as int)),
            decreases args.len() - i,
        {
            self.arg(args[i].as_str());
            proof {
                assert(words[i as int] == ArgView::Text(args@[i as int]@));
                assert(words.take(i + 1) =~= words.take(i as int).push(words[i as int]));
                assert(self@ =~= old(self)@.with_args(words.take(i + 1)));
            }
            i += 1;
        }
        assert(words.take(args.len() as int) =~= words);
    }
}

/// What a command left behind when it ended.
#[derive(Debug)]
pub struct Output {
    pub success: bool,
    /// How it ended, in words.
    pub status: String,
    pub stdout: Vec<u8>,
    pub stderr: Vec<u8>,
    /// All of it, as it is shown to whoever looks for a fault.
    pub shown: String,
}

/// How an attempt to run a command came out.
#[derive(Debug)]
pub enum Ran {
    /// The command ran and ended.
    Ended(Output),
    /// It could not be run, for this reason.
    NotRun(String),
}

/// The complaint about a command that did not succeed.
pub open spec fn complaint(output: Output) -> Seq<char> {
    "expected success, got "@ + output.status@ + "\n\nstderr="@ + text::utf8_lossy(output.stderr@)
        + "\n\n stdout="@ + text::utf8_lossy(output.stdout@)
}

/// Whether the command ran and succeeded.
pub open spec fn succeeded(ran: Ran) -> bool {
    ran matches Ran::Ended(output) && output.success
}

/// The complaint about a command that was not run or did not succeed.
pub open spec fn failure(ran: Ran) -> Seq<char> {
    match ran {
        Ran::Ended(output) => complaint(output),
        Ran::NotRun(reason) => reason@,
    }
}

/// The output of a command that has to succeed.
pub fn command_output(ran: Ran) -> (result: Result<Output, String>)
    ensures
        result is Ok <==> succeeded(ran),
        result is Ok ==> ran == Ran::Ended(result->Ok_0),
        result is Err ==> result->Err_0@ == failure(ran),
{
    match ran {
        Ran::NotRun(reason) => Err(reason),
        Ran::Ended(output) => {
            if output.success {
                return Ok(output);
            }
            let mut message = "expected success, got ".to_string();
            message.append(output.status.as_str());
            message.append("\n\nstderr=");
            message.append(text::lossy_text(&output.stderr).as_str());
            message.append("\n\n stdout=");
            message.append(text::lossy_text(&output.stdout).as_str());
            Err(message)
        },
    }
}

/// The command that marks every Rust source file below `path` as changed.
pub open spec fn touch_command(path: Seq<u8>) -> CommandView {
    CommandView::plain("bash"@).in_dir(path).with_args(
        seq![ArgView::Text("-c"@), ArgView::Text("find . -name '*.rs' | xargs touch"@)],
    )
}

/// The command that marks every Rust source file below `path` as changed.
pub fn touch_all(path: &FilePath) -> (command: Command)
    ensures
        command@ == touch_command(path@),
{
    let mut command = Command::new("bash");
    command.current_dir(path);
    command.arg("-c");
    command.arg("find . -name '*.rs' | xargs touch");
    assert(command@ =~= touch_command(path@));
    command
}

/// A word, a command and a list of either are shown as they are, none left out and
/// none changed.
pub proof fn law_commands_shown(command: Command, args: Seq<Arg>, texts: Seq<Seq<char>>, i: int)
    ensures
        command@.program == command.program@,
        command@.clear_env == command.clear_env,
        command@.cwd is Some <==> command.cwd is Some,
        command.cwd is Some ==> command@.cwd->0 == command.cwd->0@,
        command@.args.len() == command.args@.len(),
        0 <= i < command.args@.len() ==> command@.args[i] == command.args@[i]@,
        command@.env.len() == command.env@.len(),
        0 <= i < command.env@.len() ==> command@.env[i].0 == command.env@[i].name@
            && command@.env[i].1 == command.env@[i].value@,
        arg_views(args).len() == args.len(),
        0 <= i < args.len() ==> (args[i]@ matches ArgView::Text(text) ==> args[i]
            matches Arg::Text(word) && word@ == text),
        0 <= i < args.len() ==> (args[i]@ matches ArgView::Os(bytes) ==> args[i]
            matches Arg::Os(word) && word@ == bytes),
        text_args(texts).len() == texts.len(),
        0 <= i < texts.len() ==> text_args(texts)[i] == ArgView::Text(texts[i]),
{
}

/// A command begins with nothing but its program. Arguments and variables are added
/// behind those that are there, and each step leaves all else as it was.
pub proof fn law_commands_grow(
    command: CommandView,
    program: Seq<char>,
    args: Seq<ArgView>,
    name: Seq<char>,
    value: ArgView,
    dir: Seq<u8>,
)
    ensures
        ({
            let bare = CommandView::plain(program);
            &&& bare.program == program
            &&& !bare.clear_env
            &&& bare.env.len() == 0
            &&& bare.args.len() == 0
            &&& bare.cwd is None
        }),
        ({
            let more = command.with_args(args);
            &&& command.args.is_prefix_of(more.args)
            &&& args.is_suffix_of(more.args)
            &&& more.args.len() == command.args.len() + args.len()
            &&& more == (CommandView { args: more.args, ..command })
        }),
        ({
            let more = command.with_env(name, value);
            &&& more.env.drop_last() == command.env
            &&& more.env.last() == (name, value)
            &&& more.env.len() == command.env.len() + 1
            &&& more == (CommandView { env: more.env, ..command })
        }),
        ({
            let moved = command.in_dir(dir);
            &&& moved.cwd == Some(dir)
            &&& moved == (CommandView { cwd: moved.cwd, ..command })
        }),
{
    let more = command.with_args(args);
    assert(more.args.subrange(0, command.args.len() as int) =~= command.args);
    assert(more.args.skip(more.args.len() - args.len()) =~= args);
    assert(command.with_env(name, value).env.drop_last() =~= command.env);
}

/// What a command comes to is told in full. One that could not be run is complained
/// about with the reason; one that failed, with how it ended, then all that it wrote
/// to the standard error output, then all that it wrote to the standard output.
pub proof fn law_failure_is_told(output: Output, reason: String)
    ensures
        succeeded(Ran::Ended(output)) <==> output.success,
        !succeeded(Ran::NotRun(reason)),
        failure(Ran::NotRun(reason)) == reason@,
        ({
            let told = failure(Ran::Ended(output));
            let status = "expected success, got "@ + output.status@;
            let error = "\n\nstderr="@ + text::utf8_lossy(output.stderr@);
            let printed = "\n\n stdout="@ + text::utf8_lossy(output.stdout@);
            &&& status.is_prefix_of(told)
            &&& error == told.subrange(status.len() as int, (status.len() + error.len()) as int)
            &&& printed.is_suffix_of(told)
            &&& told.len() == status.len() + error.len() + printed.len()
        }),
{
    let told = failure(Ran::Ended(output));
    let status = "expected success, got "@ + output.status@;
    let error = "\n\nstderr="@ + text::utf8_lossy(output.stderr@);
    let printed = "\n\n stdout="@ + text::utf8_lossy(output.stdout@);
    assert(told =~= status + error + printed);
    assert(told.subrange(0, status.len() as int) =~= status);
    assert(told.subrange(status.len() as int, (status.len() + error.len()) as int) =~= error);
    assert(told.skip(told.len() - printed.len()) =~= printed);
}

/// Sources are marked as changed in the directory that is named, by the same script
/// in all of them.
pub proof fn law_touch(a: Seq<u8>, b: Seq<u8>)
    ensures
        touch_command(a).cwd == Some(a),
        touch_command(a) == touch_command(b).in_dir(a),
        touch_command(a).program == "bash"@,
        !touch_command(a).clear_env,
        touch_command(a).env.len() == 0,
        touch_command(a).args.len() == 2,
        touch_command(a).args[0] == ArgView::Text("-c"@),
        touch_command(a).args.last() == ArgView::Text("find . -name '*.rs' | xargs touch"@),
{
    assert(touch_command(a) =~= touch_command(b).in_dir(a));
}

} // verus!

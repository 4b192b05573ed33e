use crate::errors::Error;
use crate::errors::ErrorKind;
use vstd::prelude::*;

verus! {

/// Mathematical image of a stored command: plain sequences, no heap types.
#[verifier::ext_equal]
pub ghost struct CommandModel {
    pub id: u128,
    pub name: Seq<char>,
    pub command: Seq<char>,
    pub args: Seq<Seq<char>>,
}

/// A named, persisted executable-plus-arguments template.
///
/// The id is a 128-bit UUID value; a freshly built command carries the nil
/// id until the store assigns one.
#[derive(Debug)]
pub struct Command {
    pub id: u128,
    pub name: String,
    pub command: String,
    pub args: Vec<String>,
}

impl View for Command {
    type V = CommandModel;

    open spec fn view(&self) -> CommandModel {
        CommandModel {
            id: self.id,
            name: self.name@,
            command: self.command@,
            args: self.args.deep_view(),
        }
    }
}

/// Copy every string of `v`; the views are preserved element for element.
pub fn clone_strings(v: &Vec<String>) -> (r: Vec<String>)
    ensures
        r@ == v@,
{
    let mut r: Vec<String> = Vec::new();
    let mut i: usize = 0;
    while i < v.len()
        invariant
            0 <= i <= v@.len(),
            r@ =~= v@.take(i as int),
        decreases v@.len() - i,
    {
        r.push(v[i].clone());
        proof {
            assert(v@.take(i + 1) =~= v@.take(i as int).push(v@[i as int]));
        }
        i = i + 1;
    }
    proof {
        assert(v@.take(v@.len() as int) =~= v@);
    }
    r
}

impl Clone for Command {
    /// A copy with the same model.
    fn clone(&self) -> (c: Self)
        ensures
            c@ == self@,
    {
        let c = Command {
            id: self.id,
            name: self.name.clone(),
            command: self.command.clone(),
            args: clone_strings(&self.args),
        };
        proof {
            assert(c@ =~= self@);
        }
        c
    }
}

impl Command {
    /// A fresh, unstored command: the id is nil until the store assigns one.
    pub fn new(name: String, command: String, args: Vec<String>) -> (c: Command)
        ensures
            c@.id == 0,
            c@.name == name@,
            c@.command == command@,
            c@.args == args.deep_view(),
    {
        Command { id: 0, name, command, args }
    }
}

/// A query key that resolves to exactly one stored command.
#[derive(Debug)]
pub enum Identifier {
    /// Exact primary-key match.
    Id(u128),
    /// Exact name match.
    Name(String),
    /// Case-sensitive substring match on name or executable.
    Like(String),
}

/// Mathematical image of an identifier.
pub ghost enum IdentifierModel {
    ById(u128),
    ByName(Seq<char>),
    ByLike(Seq<char>),
}

impl View for Identifier {
    type V = IdentifierModel;

    open spec fn view(&self) -> IdentifierModel {
        match self {
            Identifier::Id(u) => IdentifierModel::ById(*u),
            Identifier::Name(n) => IdentifierModel::ByName(n@),
            Identifier::Like(p) => IdentifierModel::ByLike(p@),
        }
    }
}

/// The wire decoding rule for identifiers: of the `id`, `name` and `like`
/// query fields, the first present in that priority order wins; a query with
/// none of them is rejected.
pub fn identifier_from_query(id: Option<u128>, name: Option<String>, like: Option<String>) -> (r:
    Result<Identifier, Error>)
    ensures
        id matches Some(u) ==> r matches Ok(i) && i == Identifier::Id(u),
        id is None ==> (name matches Some(n) ==> r matches Ok(i) && i == Identifier::Name(n)),
        id is None && name is None ==> (like matches Some(p) ==> r matches Ok(i) && i
            == Identifier::Like(p)),
        id is None && name is None && like is None ==> (r matches Err(e) && e.kind
            == ErrorKind::InvalidIdentifier && e.context.deep_view() == seq![
            "No valid identifier provided"@,
        ]),
{
    if let Some(u) = id {
        Ok(Identifier::Id(u))
    } else if let Some(n) = name {
        Ok(Identifier::Name(n))
    } else if let Some(p) = like {
        Ok(Identifier::Like(p))
    } else {
        let e = Error::new(ErrorKind::InvalidIdentifier).attach("No valid identifier provided");
        proof {
            assert(e.context.deep_view() =~= seq!["No valid identifier provided"@]);
        }
        Err(e)
    }
}

/// The conflict policy applied when an insert collides on `name`.
#[derive(Clone, Copy, Debug, PartialEq, Eq, Structural)]
pub enum CommandAddMode {
    /// A colliding insert is silently dropped.
    Ignore,
    /// A colliding row is overwritten, taking the new id, command and args.
    Replace,
    /// A colliding insert fails with a conflict error.
    Error,
}

impl Default for CommandAddMode {
    /// Colliding inserts fail unless the caller chose otherwise.
    fn default() -> (m: Self)
        ensures
            m == CommandAddMode::Error,
    {
        CommandAddMode::Error
    }
}

/// How a finished child process ended.
#[derive(Clone, Copy, Debug)]
pub struct ExitStatus {
    /// Whether the process reported success.
    pub success: bool,
    /// The numeric exit code; absent when the process was ended by a signal.
    pub code: Option<i32>,
}

/// Mathematical image of a captured execution result.
pub ghost struct OutputModel {
    pub stdout: Seq<char>,
    pub stderr: Seq<char>,
    pub success: bool,
    pub code: Option<i32>,
}

/// What one execution of a command produced.
#[derive(Debug)]
pub struct Output {
    /// Captured standard output, lossily decoded as text.
    pub stdout: String,
    /// Captured standard error, lossily decoded as text.
    pub stderr: String,
    /// How the process ended.
    pub status: ExitStatus,
}

impl View for Output {
    type V = OutputModel;

    open spec fn view(&self) -> OutputModel {
        OutputModel {
            stdout: self.stdout@,
            stderr: self.stderr@,
            success: self.status.success,
            code: self.status.code,
        }
    }
}

/// The text that the lossy UTF-8 decoding yields for the given bytes: the
/// decoding depends on the bytes alone.
pub uninterp spec fn lossy_of(bytes: Seq<u8>) -> Seq<char>;

/// Relies on String::from_utf8_lossy: the result is a function of the bytes
/// alone, and an empty input decodes to the empty string.
#[verifier::external_body]
fn decode_lossy(bytes: &Vec<u8>) -> (text: String)
    ensures
        text@ == lossy_of(bytes@),
        bytes@.len() == 0 ==> text@.len() == 0,
{
    String::from_utf8_lossy(bytes).into_owned()
}

/// The raw result of one finished child process, as the operating system
/// reports it: undecoded output bytes plus the exit status.
pub struct Capture {
    pub stdout: Vec<u8>,
    pub stderr: Vec<u8>,
    pub success: bool,
    pub code: Option<i32>,
}

/// The output model that decoding a capture yields.
pub open spec fn decoded_capture(c: Capture) -> OutputModel {
    OutputModel {
        stdout: lossy_of(c.stdout@),
        stderr: lossy_of(c.stderr@),
        success: c.success,
        code: c.code,
    }
}

impl Output {
    /// Decode a raw capture: both streams lossily as text, invalid byte
    /// sequences replaced rather than rejected; the status is kept as is.
    pub fn from_raw(capture: Capture) -> (out: Output)
        ensures
            out@ == decoded_capture(capture),
    {
        let stdout = decode_lossy(&capture.stdout);
        let stderr = decode_lossy(&capture.stderr);
        let out = Output {
            stdout,
            stderr,
            status: ExitStatus { success: capture.success, code: capture.code },
        };
        out
    }
}

} // verus!

use crate::command::decoded_capture;
use crate::command::Capture;
use crate::command::Command;
use crate::command::CommandModel;
use crate::command::Identifier;
use crate::command::IdentifierModel;
use crate::command::Output;
use crate::errors::Error;
use crate::errors::ErrorKind;
use crate::placeholder::resolved_args_spec;
use crate::placeholder::Substitutions;
use crate::store::has_id;
use crate::store::history_entry;
use crate::store::resolve_spec;
use crate::store::rows_after_delete;
use crate::store::Store;
use crate::text::join_with;
use crate::text::joined_with;
use vstd::prelude::*;

verus! {

/// Flags of a run request: whether to record history, and which shape the
/// response body takes.
#[derive(Clone, Copy, Debug)]
pub struct RunArgs {
    /// Record the output as a history row.
    pub history: bool,
    /// Respond with the whole output object.
    pub full: bool,
    /// Respond with captured standard output as a raw JSON value.
    pub json: bool,
}

impl Default for RunArgs {
    /// History is recorded and the raw standard output is returned.
    fn default() -> (r: Self)
        ensures
            r.history && !r.full && !r.json,
    {
        RunArgs { history: true, full: false, json: false }
    }
}

/// The response body of a successful run, per the request flags.
#[derive(Debug)]
pub enum RunResponse {
    /// The whole output object.
    Full(Output),
    /// Captured standard output, known to be one valid JSON document.
    Json(String),
    /// Captured standard output as raw text.
    Raw(String),
}

/// Whether the text parses as one JSON document: the verdict depends on the
/// text alone.
pub uninterp spec fn is_json(s: Seq<char>) -> bool;

/// Relies on serde_json::from_str: accepts exactly the texts that parse as
/// one JSON document.
#[verifier::external_body]
fn json_validates(s: &str) -> (r: bool)
    ensures
        r == is_json(s@),
{
    serde_json::from_str::<serde_json::Value>(s).is_ok()
}

/// Shape the response for a finished run: the whole output object, the
/// standard output as a checked JSON value, or the raw text.
pub fn render_output(output: Output, args: &RunArgs) -> (r: Result<RunResponse, Error>)
    ensures
        args.full ==> r == Ok::<RunResponse, Error>(RunResponse::Full(output)),
        !args.full && args.json && is_json(output@.stdout) ==> r == Ok::<RunResponse, Error>(
            RunResponse::Json(output.stdout),
        ),
        !args.full && args.json && !is_json(output@.stdout) ==> (r matches Err(e) && e.kind
            == ErrorKind::InvalidOutput && e.context.deep_view() == seq![
            "Failed to parse output.stdout as json"@,
        ]),
        !args.full && !args.json ==> r == Ok::<RunResponse, Error>(RunResponse::Raw(output.stdout)),
{
    if args.full {
        Ok(RunResponse::Full(output))
    } else if args.json {
        if json_validates(output.stdout.as_str()) {
            Ok(RunResponse::Json(output.stdout))
        } else {
            let e = Error::new(ErrorKind::InvalidOutput).attach(
                "Failed to parse output.stdout as json",
            );
            proof {
                assert(e.context.deep_view() =~= seq!["Failed to parse output.stdout as json"@]);
            }
            Err(e)
        }
    } else {
        Ok(RunResponse::Raw(output.stdout))
    }
}

/// What planning a run yields: the resolved command and its fully
/// substituted argument list, or the first failure.
pub open spec fn plan_spec(
    rows: Seq<CommandModel>,
    ident: IdentifierModel,
    m: Map<Seq<char>, Seq<char>>,
) -> Result<(CommandModel, Seq<Seq<char>>), ErrorKind> {
    match resolve_spec(rows, ident) {
        Err(k) => Err(k),
        Ok(cm) => match resolved_args_spec(cm.args, m) {
            Err(k) => Err(k),
            Ok(a) => Ok((cm, a)),
        },
    }
}

/// The pure half of a run request, before any process is spawned: resolve
/// the identifier, then substitute the argument templates.
pub fn plan_run(store: &Store, identifier: &Identifier, subs: &Substitutions) -> (r: Result<
    (Command, Vec<String>),
    Error,
>)
    ensures
        match plan_spec(store@.commands, identifier@, subs@) {
            Ok(p) => r matches Ok(q) && q.0@ == p.0 && q.1.deep_view() == p.1 && has_id(
                store@.commands,
                p.0.id,
            ),
            Err(k) => r matches Err(e) && e.kind == k,
        },
{
    let command = match store.resolve(identifier) {
        Ok(c) => c,
        Err(e) => {
            return Err(e);
        },
    };
    let args = match command.resolved_args(subs) {
        Ok(a) => a,
        Err(e) => {
            return Err(e);
        },
    };
    Ok((command, args))
}

/// The closing half of a run request, after the process finished or failed
/// to start. A failed spawn is `SpawnFailed`, carrying the underlying
/// operating-system error handed in by the caller and then the attempted
/// command and arguments, and writes no history row; for a finished
/// process the output is decoded, recorded when the history flag asks for
/// it — even when rendering then fails — and rendered per the flags.
pub fn finish_run(
    store: &mut Store,
    command: &Command,
    args: &Vec<String>,
    capture: Result<Capture, String>,
    run_args: &RunArgs,
) -> (r: Result<RunResponse, Error>)
    requires
        old(store).wf(),
        has_id(old(store)@.commands, command@.id),
    ensures
        final(store).wf(),
        final(store)@.commands == old(store)@.commands,
        capture matches Err(os) ==> (r matches Err(e) && e.kind == ErrorKind::SpawnFailed
            && e.context.deep_view() == seq![
            os@,
            "Failed to run command: "@ + command@.command + " with args: "@ + joined_with(
                args.deep_view(),
                " "@,
            ),
        ] && final(store)@.history == old(store)@.history),
        capture matches Ok(c) ==> ({
            let om = decoded_capture(c);
            &&& (run_args.history ==> final(store)@.history == old(store)@.history.push(
                history_entry(om, command@.id),
            ))
            &&& (!run_args.history ==> final(store)@.history == old(store)@.history)
            &&& (run_args.full ==> (r matches Ok(resp) && resp matches RunResponse::Full(o) && o@
                == om))
            &&& (!run_args.full && run_args.json && is_json(om.stdout) ==> (r matches Ok(resp)
                && resp matches RunResponse::Json(s) && s@ == om.stdout))
            &&& (!run_args.full && run_args.json && !is_json(om.stdout) ==> (r matches Err(e)
                && e.kind == ErrorKind::InvalidOutput))
            &&& (!run_args.full && !run_args.json ==> (r matches Ok(resp) && resp
                matches RunResponse::Raw(s) && s@ == om.stdout))
        }),
{
    match capture {
        Ok(c) => {
            let output = Output::from_raw(c);
            if run_args.history {
                output.save(store, command.id);
            }
            render_output(output, run_args)
        },
        Err(os) => {
            let joined = join_with(args, " ");
            let msg = String::from_str("Failed to run command: ").concat(command.command.as_str())
                .concat(" with args: ").concat(joined.as_str());
            let e = Error::new(ErrorKind::SpawnFailed).attach(os.as_str()).attach(msg.as_str());
            proof {
                assert(e.context.deep_view() =~= seq![
                    os@,
                    "Failed to run command: "@ + command@.command + " with args: "@ + joined_with(
                        args.deep_view(),
                        " "@,
                    ),
                ]);
            }
            Err(e)
        },
    }
}

/// Resolve an identifier and delete the resolved command's row.
pub fn handle_delete(store: &mut Store, identifier: &Identifier) -> (r: Result<(), Error>)
    requires
        old(store).wf(),
    ensures
        final(store).wf(),
        final(store)@.history == old(store)@.history,
        match resolve_spec(old(store)@.commands, identifier@) {
            Ok(cm) => r is Ok && final(store)@.commands == rows_after_delete(
                old(store)@.commands,
                cm.id,
            ),
            Err(k) => r matches Err(e) && e.kind == k && final(store)@.commands
                == old(store)@.commands,
        },
{
    match store.resolve(identifier) {
        Ok(c) => {
            store.delete(c.id);
            Ok(())
        },
        Err(e) => Err(e),
    }
}

} // verus!

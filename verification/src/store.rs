use crate::command::Command;
use crate::command::CommandAddMode;
use crate::command::CommandModel;
use crate::command::Identifier;
use crate::command::IdentifierModel;
use crate::command::Output;
use crate::command::OutputModel;
use crate::errors::Error;
use crate::errors::ErrorKind;
use crate::text::contains_sub;
use crate::text::contains_substring;
use vstd::prelude::*;

verus! {

broadcast use vstd::seq_lib::group_seq_lib_default;

/// One appended record of a past execution, keyed by the command that
/// produced it.
#[derive(Debug)]
pub struct HistoryRow {
    pub command_id: u128,
    pub stdout: String,
    pub stderr: String,
    pub success: bool,
    pub code: Option<i32>,
}

/// Mathematical image of a history record.
pub ghost struct HistoryModel {
    pub command_id: u128,
    pub stdout: Seq<char>,
    pub stderr: Seq<char>,
    pub success: bool,
    pub code: Option<i32>,
}

impl View for HistoryRow {
    type V = HistoryModel;

    open spec fn view(&self) -> HistoryModel {
        HistoryModel {
            command_id: self.command_id,
            stdout: self.stdout@,
            stderr: self.stderr@,
            success: self.success,
            code: self.code,
        }
    }
}

/// The history row that recording an output against a command yields.
pub open spec fn history_entry(o: OutputModel, command_id: u128) -> HistoryModel {
    HistoryModel {
        command_id: command_id,
        stdout: o.stdout,
        stderr: o.stderr,
        success: o.success,
        code: o.code,
    }
}

/// Mathematical image of the whole store: command rows in insertion order,
/// history rows in append order.
#[verifier::ext_equal]
pub ghost struct StoreModel {
    pub commands: Seq<CommandModel>,
    pub history: Seq<HistoryModel>,
}

/// The models of a row vector, in order.
pub open spec fn views_of_commands(rows: Seq<Command>) -> Seq<CommandModel> {
    rows.map_values(|c: Command| c@)
}

/// The models of a history vector, in order.
pub open spec fn views_of_history(rows: Seq<HistoryRow>) -> Seq<HistoryModel> {
    rows.map_values(|h: HistoryRow| h@)
}

/// Some row carries this id.
pub open spec fn has_id(rows: Seq<CommandModel>, id: u128) -> bool {
    exists|k: int| 0 <= k < rows.len() && rows[k].id == id
}

/// Some row carries this name.
pub open spec fn has_name(rows: Seq<CommandModel>, name: Seq<char>) -> bool {
    exists|k: int| 0 <= k < rows.len() && rows[k].name == name
}

/// The first row with this id, in store order.
pub open spec fn find_id(rows: Seq<CommandModel>, id: u128) -> Option<CommandModel>
    decreases rows.len(),
{
    if rows.len() == 0 {
        None
    } else if rows[0].id == id {
        Some(rows[0])
    } else {
        find_id(rows.drop_first(), id)
    }
}

/// The first row with this name, in store order.
pub open spec fn find_name(rows: Seq<CommandModel>, name: Seq<char>) -> Option<CommandModel>
    decreases rows.len(),
{
    if rows.len() == 0 {
        None
    } else if rows[0].name == name {
        Some(rows[0])
    } else {
        find_name(rows.drop_first(), name)
    }
}

/// A row matches a pattern when its name or its executable contains the
/// pattern as a substring (case-sensitive).
pub open spec fn matches_like(c: CommandModel, pattern: Seq<char>) -> bool {
    contains_sub(c.name, pattern) || contains_sub(c.command, pattern)
}

/// The matching rows, in store order.
pub open spec fn like_matches(rows: Seq<CommandModel>, pattern: Seq<char>) -> Seq<CommandModel> {
    rows.filter(|c: CommandModel| matches_like(c, pattern))
}

/// Ids and names are pairwise distinct.
pub open spec fn unique_rows(rows: Seq<CommandModel>) -> bool {
    forall|i: int, j: int|
        0 <= i < j < rows.len() ==> rows[i].id != rows[j].id && rows[i].name != rows[j].name
}

/// The command model with the store-assigned id in place of the nil one.
pub open spec fn with_id(c: CommandModel, id: u128) -> CommandModel {
    CommandModel { id: id, name: c.name, command: c.command, args: c.args }
}

/// Whether an insert of `c` under `mode` succeeds: only the erroring mode
/// refuses, and only on a collision.
pub open spec fn insert_allowed(
    rows: Seq<CommandModel>,
    c: CommandModel,
    mode: CommandAddMode,
) -> bool {
    match mode {
        CommandAddMode::Error => !has_id(rows, c.id) && !has_name(rows, c.name),
        CommandAddMode::Ignore => true,
        CommandAddMode::Replace => true,
    }
}

/// The rows after an insert of `c` under `mode`: a refused or ignored
/// colliding insert leaves the rows alone; a replacing insert drops every
/// colliding row and appends the new one.
pub open spec fn rows_after_add(
    rows: Seq<CommandModel>,
    c: CommandModel,
    mode: CommandAddMode,
) -> Seq<CommandModel> {
    match mode {
        CommandAddMode::Error => if !has_id(rows, c.id) && !has_name(rows, c.name) {
            rows.push(c)
        } else {
            rows
        },
        CommandAddMode::Ignore => if has_id(rows, c.id) || has_name(rows, c.name) {
            rows
        } else {
            rows.push(c)
        },
        CommandAddMode::Replace => rows.filter(
            |r: CommandModel| r.id != c.id && r.name != c.name,
        ).push(c),
    }
}

/// The rows after a delete by id.
pub open spec fn rows_after_delete(rows: Seq<CommandModel>, id: u128) -> Seq<CommandModel> {
    rows.filter(|c: CommandModel| c.id != id)
}

/// A filter keeps only members of the original sequence.
pub proof fn lemma_filter_members<A>(s: Seq<A>, pred: spec_fn(A) -> bool)
    ensures
        forall|k: int|
            0 <= k < s.filter(pred).len() ==> s.contains(#[trigger] s.filter(pred)[k]),
    decreases s.len(),
{
    reveal_with_fuel(Seq::filter, 2);
    if s.len() > 0 {
        let dl = s.drop_last();
        lemma_filter_members(dl, pred);
        assert(forall|k: int| 0 <= k < dl.len() ==> dl[k] == s[k]);
        assert(forall|x: A| dl.contains(x) ==> s.contains(x));
        assert(s.contains(s.last()));
        if pred(s.last()) {
            assert(s.filter(pred) == dl.filter(pred).push(s.last()));
        } else {
            assert(s.filter(pred) == dl.filter(pred));
        }
    }
}

/// Filtering unique rows leaves them unique.
pub proof fn lemma_filter_unique(rows: Seq<CommandModel>, pred: spec_fn(CommandModel) -> bool)
    requires
        unique_rows(rows),
    ensures
        unique_rows(rows.filter(pred)),
    decreases rows.len(),
{
    reveal_with_fuel(Seq::filter, 2);
    if rows.len() > 0 {
        let dl = rows.drop_last();
        assert(forall|k: int| 0 <= k < dl.len() ==> dl[k] == rows[k]);
        assert(unique_rows(dl));
        lemma_filter_unique(dl, pred);
        if pred(rows.last()) {
            assert(rows.filter(pred) == dl.filter(pred).push(rows.last()));
            lemma_filter_members(dl, pred);
            let out = dl.filter(pred).push(rows.last());
            assert forall|i: int, j: int| 0 <= i < j < out.len() implies out[i].id != out[j].id
                && out[i].name != out[j].name by {
                if j == out.len() - 1 {
                    assert(dl.contains(out[i]));
                    let w = choose|w: int| 0 <= w < dl.len() && dl[w] == out[i];
                    assert(rows[w] == out[i]);
                    assert(rows.last() == rows[rows.len() - 1]);
                }
            }
        } else {
            assert(rows.filter(pred) == dl.filter(pred));
        }
    }
}

/// A filter whose test every row passes keeps the rows unchanged.
pub proof fn lemma_filter_all_true<A>(s: Seq<A>, pred: spec_fn(A) -> bool)
    requires
        forall|i: int| 0 <= i < s.len() ==> pred(#[trigger] s[i]),
    ensures
        s.filter(pred) == s,
    decreases s.len(),
{
    reveal_with_fuel(Seq::filter, 2);
    if s.len() > 0 {
        let dl = s.drop_last();
        assert(forall|k: int| 0 <= k < dl.len() ==> dl[k] == s[k]);
        lemma_filter_all_true(dl, pred);
        assert(pred(s[s.len() - 1]));
        assert(s.filter(pred) == dl.push(s.last()));
        assert(dl.push(s.last()) =~= s);
    }
}

/// Where the first `i` rows miss the id and row `i` carries it, the lookup
/// finds exactly row `i`.
pub proof fn lemma_find_id_at(rows: Seq<CommandModel>, id: u128, i: int)
    requires
        0 <= i < rows.len(),
        rows[i].id == id,
        forall|k: int| 0 <= k < i ==> rows[k].id != id,
    ensures
        find_id(rows, id) == Some(rows[i]),
    decreases i,
{
    if i > 0 {
        let df = rows.drop_first();
        assert(forall|k: int| 0 <= k < df.len() ==> df[k] == rows[k + 1]);
        lemma_find_id_at(df, id, i - 1);
    }
}

/// Where no row carries the id, the lookup finds nothing.
pub proof fn lemma_find_id_none(rows: Seq<CommandModel>, id: u128)
    requires
        forall|k: int| 0 <= k < rows.len() ==> rows[k].id != id,
    ensures
        find_id(rows, id) is None,
    decreases rows.len(),
{
    if rows.len() > 0 {
        let df = rows.drop_first();
        assert(forall|k: int| 0 <= k < df.len() ==> df[k] == rows[k + 1]);
        lemma_find_id_none(df, id);
    }
}

/// A found row is a member, carries the id, and witnesses `has_id`.
pub proof fn lemma_find_id_member(rows: Seq<CommandModel>, id: u128)
    requires
        find_id(rows, id) is Some,
    ensures
        has_id(rows, id),
        rows.contains(find_id(rows, id).unwrap()),
        find_id(rows, id).unwrap().id == id,
    decreases rows.len(),
{
    if rows.len() > 0 && rows[0].id != id {
        let df = rows.drop_first();
        lemma_find_id_member(df, id);
        let c = find_id(df, id).unwrap();
        let w = choose|w: int| 0 <= w < df.len() && df[w] == c;
        assert(rows[w + 1] == c);
    }
}

/// Where the first `i` rows miss the name and row `i` carries it, the
/// lookup finds exactly row `i`.
pub proof fn lemma_find_name_at(rows: Seq<CommandModel>, name: Seq<char>, i: int)
    requires
        0 <= i < rows.len(),
        rows[i].name == name,
        forall|k: int| 0 <= k < i ==> rows[k].name != name,
    ensures
        find_name(rows, name) == Some(rows[i]),
    decreases i,
{
    if i > 0 {
        let df = rows.drop_first();
        assert(forall|k: int| 0 <= k < df.len() ==> df[k] == rows[k + 1]);
        lemma_find_name_at(df, name, i - 1);
    }
}

/// Where no row carries the name, the lookup finds nothing.
pub proof fn lemma_find_name_none(rows: Seq<CommandModel>, name: Seq<char>)
    requires
        forall|k: int| 0 <= k < rows.len() ==> rows[k].name != name,
    ensures
        find_name(rows, name) is None,
    decreases rows.len(),
{
    if rows.len() > 0 {
        let df = rows.drop_first();
        assert(forall|k: int| 0 <= k < df.len() ==> df[k] == rows[k + 1]);
        lemma_find_name_none(df, name);
    }
}

/// A found row is a member, carries the name, and witnesses `has_id` for
/// its own id.
pub proof fn lemma_find_name_member(rows: Seq<CommandModel>, name: Seq<char>)
    requires
        find_name(rows, name) is Some,
    ensures
        rows.contains(find_name(rows, name).unwrap()),
        find_name(rows, name).unwrap().name == name,
        has_id(rows, find_name(rows, name).unwrap().id),
    decreases rows.len(),
{
    if rows.len() > 0 {
        if rows[0].name == name {
            assert(rows.contains(rows[0])) by {
                assert(rows[0] == rows[0]);
            }
        } else {
            let df = rows.drop_first();
            lemma_find_name_member(df, name);
            let c = find_name(df, name).unwrap();
            let w = choose|w: int| 0 <= w < df.len() && df[w] == c;
            assert(rows[w + 1] == c);
        }
    }
}

/// What resolving an identifier yields: an id queries by primary key, a
/// name by exact name, and a pattern takes the first matching row in store
/// order; an empty result is `NotFound`.
pub open spec fn resolve_spec(rows: Seq<CommandModel>, ident: IdentifierModel) -> Result<
    CommandModel,
    ErrorKind,
> {
    match ident {
        IdentifierModel::ById(u) => match find_id(rows, u) {
            Some(c) => Ok(c),
            None => Err(ErrorKind::NotFound),
        },
        IdentifierModel::ByName(n) => match find_name(rows, n) {
            Some(c) => Ok(c),
            None => Err(ErrorKind::NotFound),
        },
        IdentifierModel::ByLike(p) => if like_matches(rows, p).len() == 0 {
            Err(ErrorKind::NotFound)
        } else {
            Ok(like_matches(rows, p)[0])
        },
    }
}

/// Relies on uuid::Uuid::new_v4: a freshly generated random version-4 UUID,
/// handed on as its 128-bit value. Randomness admits no contract; callers
/// state what holds for every outcome.
#[verifier::external_body]
fn fresh_id() -> u128 {
    uuid::Uuid::new_v4().as_u128()
}

/// The command registry: rows in insertion order with unique ids and names,
/// plus the append-only execution history.
pub struct Store {
    commands: Vec<Command>,
    history: Vec<HistoryRow>,
}

impl View for Store {
    type V = StoreModel;

    closed spec fn view(&self) -> StoreModel {
        StoreModel {
            commands: views_of_commands(self.commands@),
            history: views_of_history(self.history@),
        }
    }
}

impl Store {
    /// Ids and names are unique across the rows; every operation keeps this.
    pub open spec fn wf(&self) -> bool {
        unique_rows(self@.commands)
    }

    /// An empty registry.
    pub fn new() -> (s: Store)
        ensures
            s@.commands == Seq::<CommandModel>::empty(),
            s@.history == Seq::<HistoryModel>::empty(),
            s.wf(),
    {
        let s = Store { commands: Vec::new(), history: Vec::new() };
        proof {
            assert(s@.commands =~= Seq::<CommandModel>::empty());
            assert(s@.history =~= Seq::<HistoryModel>::empty());
        }
        s
    }

    /// Index of the first row with this id, scanning in store order.
    fn index_of_id(&self, id: u128) -> (r: Option<usize>)
        ensures
            match r {
                Some(i) => 0 <= i < self@.commands.len() && self@.commands[i as int].id == id
                    && forall|k: int| 0 <= k < i ==> self@.commands[k].id != id,
                None => forall|k: int| 0 <= k < self@.commands.len() ==> self@.commands[k].id != id,
            },
    {
        let mut i: usize = 0;
        while i < self.commands.len()
            invariant
                i <= self.commands@.len(),
                self@.commands.len() == self.commands@.len(),
                forall|k: int| 0 <= k < i ==> self@.commands[k].id != id,
            decreases self.commands@.len() - i,
        {
            if self.commands[i].id == id {
                return Some(i);
            }
            i = i + 1;
        }
        None
    }

    /// Index of the first row with this name, scanning in store order.
    fn index_of_name(&self, name: &String) -> (r: Option<usize>)
        ensures
            match r {
                Some(i) => 0 <= i < self@.commands.len() && self@.commands[i as int].name == name@
                    && forall|k: int| 0 <= k < i ==> self@.commands[k].name != name@,
                None => forall|k: int|
                    0 <= k < self@.commands.len() ==> self@.commands[k].name != name@,
            },
    {
        let mut i: usize = 0;
        while i < self.commands.len()
            invariant
                i <= self.commands@.len(),
                self@.commands.len() == self.commands@.len(),
                forall|k: int| 0 <= k < i ==> self@.commands[k].name != name@,
            decreases self.commands@.len() - i,
        {
            if self.commands[i].name == *name {
                return Some(i);
            }
            i = i + 1;
        }
        None
    }

    /// Fetch by primary key: the row with this id, or `NotFound`.
    pub fn get(&self, id: u128) -> (r: Result<Command, Error>)
        ensures
            match r {
                Ok(c) => find_id(self@.commands, id) == Some(c@),
                Err(e) => find_id(self@.commands, id) is None && e.kind == ErrorKind::NotFound
                    && e.context.deep_view() == seq!["Failed to query command by id"@],
            },
    {
        match self.index_of_id(id) {
            Some(i) => {
                let c = self.commands[i].clone();
                proof {
                    lemma_find_id_at(self@.commands, id, i as int);
                }
                Ok(c)
            },
            None => {
                proof {
                    lemma_find_id_none(self@.commands, id);
                }
                let e = Error::new(ErrorKind::NotFound).attach("Failed to query command by id");
                proof {
                    assert(e.context.deep_view() =~= seq!["Failed to query command by id"@]);
                }
                Err(e)
            },
        }
    }

    /// Fetch by exact name: the first row with this name, or `NotFound`.
    pub fn get_by_name(&self, name: &String) -> (r: Result<Command, Error>)
        ensures
            match r {
                Ok(c) => find_name(self@.commands, name@) == Some(c@),
                Err(e) => find_name(self@.commands, name@) is None && e.kind == ErrorKind::NotFound
                    && e.context.deep_view() == seq![
                    "Failed to query command with name: "@ + name@,
                ],
            },
    {
        match self.index_of_name(name) {
            Some(i) => {
                let c = self.commands[i].clone();
                proof {
                    lemma_find_name_at(self@.commands, name@, i as int);
                }
                Ok(c)
            },
            None => {
                proof {
                    lemma_find_name_none(self@.commands, name@);
                }
                let msg = String::from_str("Failed to query command with name: ").concat(
                    name.as_str(),
                );
                let e = Error::new(ErrorKind::NotFound).attach(msg.as_str());
                proof {
                    assert(e.context.deep_view() =~= seq![
                        "Failed to query command with name: "@ + name@,
                    ]);
                }
                Err(e)
            },
        }
    }

    /// All rows, in insertion order.
    pub fn list(&self) -> (r: Vec<Command>)
        ensures
            views_of_commands(r@) == self@.commands,
    {
        let mut out: Vec<Command> = Vec::new();
        let mut i: usize = 0;
        proof {
            assert(views_of_commands(out@) =~= self@.commands.take(0));
        }
        while i < self.commands.len()
            invariant
                i <= self.commands@.len(),
                self@.commands.len() == self.commands@.len(),
                views_of_commands(out@) == self@.commands.take(i as int),
            decreases self.commands@.len() - i,
        {
            let ghost prev = out@;
            out.push(self.commands[i].clone());
            proof {
                assert(views_of_commands(out@) =~= views_of_commands(prev).push(
                    self@.commands[i as int],
                ));
                assert(self@.commands.take(i + 1) =~= self@.commands.take(i as int).push(
                    self@.commands[i as int],
                ));
            }
            i = i + 1;
        }
        proof {
            assert(self@.commands.take(self@.commands.len() as int) =~= self@.commands);
        }
        out
    }

    /// Substring search: every row whose name or executable contains the
    /// pattern, in store order; an empty result is `NotFound`.
    pub fn like(&self, pattern: &String) -> (r: Result<Vec<Command>, Error>)
        ensures
            match r {
                Ok(v) => views_of_commands(v@) == like_matches(self@.commands, pattern@)
                    && v@.len() > 0,
                Err(e) => like_matches(self@.commands, pattern@).len() == 0 && e.kind
                    == ErrorKind::NotFound && e.context.deep_view() == seq![
                    "No commands found matching pattern: "@ + pattern@,
                ],
            },
    {
        let ghost rows = self@.commands;
        let mut out: Vec<Command> = Vec::new();
        let mut i: usize = 0;
        proof {
            assert(views_of_commands(out@) =~= like_matches(rows.take(0), pattern@)) by {
                reveal_with_fuel(Seq::filter, 1);
                assert(rows.take(0) =~= Seq::<CommandModel>::empty());
            }
        }
        while i < self.commands.len()
            invariant
                i <= self.commands@.len(),
                rows == self@.commands,
                rows.len() == self.commands@.len(),
                views_of_commands(out@) == like_matches(rows.take(i as int), pattern@),
            decreases self.commands@.len() - i,
        {
            let c: &Command = &self.commands[i];
            proof {
                assert(c@ == rows[i as int]);
                assert(rows.take(i + 1) =~= rows.take(i as int).push(rows[i as int]));
                lemma_like_matches_push(rows.take(i as int), rows[i as int], pattern@);
            }
            let hit = contains_substring(c.name.as_str(), pattern.as_str())
                || contains_substring(c.command.as_str(), pattern.as_str());
            if hit {
                let ghost prev = out@;
                out.push(c.clone());
                proof {
                    assert(views_of_commands(out@) =~= views_of_commands(prev).push(
                        rows[i as int],
                    ));
                }
            }
            i = i + 1;
        }
        proof {
            assert(rows.take(rows.len() as int) =~= rows);
        }
        if out.len() == 0 {
            proof {
                assert(like_matches(rows, pattern@).len() == 0);
            }
            let msg = String::from_str("No commands found matching pattern: ").concat(
                pattern.as_str(),
            );
            let e = Error::new(ErrorKind::NotFound).attach(msg.as_str());
            proof {
                assert(e.context.deep_view() =~= seq![
                    "No commands found matching pattern: "@ + pattern@,
                ]);
            }
            Err(e)
        } else {
            Ok(out)
        }
    }

    /// Insert a row under a caller-chosen id: the deterministic heart of
    /// `add`, with the conflict policy of the chosen mode.
    pub fn add_with_id(&mut self, id: u128, command: Command, mode: CommandAddMode) -> (r: Result<
        (),
        Error,
    >)
        requires
            old(self).wf(),
        ensures
            final(self).wf(),
            final(self)@.history == old(self)@.history,
            final(self)@.commands == rows_after_add(old(self)@.commands, with_id(command@, id), mode),
            r is Ok <==> insert_allowed(old(self)@.commands, with_id(command@, id), mode),
            r matches Err(e) ==> e.kind == ErrorKind::Conflict && e.context.deep_view() == seq![
                "Failed to add command: "@ + command@.command,
            ],
    {
        let ghost rows = self@.commands;
        let ghost cm = with_id(command@, id);
        let stored = Command {
            id,
            name: command.name,
            command: command.command,
            args: command.args,
        };
        proof {
            assert(stored@ =~= cm);
        }
        match mode {
            CommandAddMode::Error => {
                let name_dup = self.index_of_name(&stored.name).is_some();
                let id_dup = self.index_of_id(id).is_some();
                if name_dup || id_dup {
                    let msg = String::from_str("Failed to add command: ").concat(
                        stored.command.as_str(),
                    );
                    let e = Error::new(ErrorKind::Conflict).attach(msg.as_str());
                    proof {
                        assert(e.context.deep_view() =~= seq![
                            "Failed to add command: "@ + command@.command,
                        ]);
                    }
                    Err(e)
                } else {
                    let ghost prev = self.commands@;
                    self.commands.push(stored);
                    proof {
                        assert(views_of_commands(self.commands@) =~= views_of_commands(prev).push(
                            cm,
                        ));
                        assert(unique_rows(rows.push(cm)));
                    }
                    Ok(())
                }
            },
            CommandAddMode::Ignore => {
                let name_dup = self.index_of_name(&stored.name).is_some();
                let id_dup = self.index_of_id(id).is_some();
                if name_dup || id_dup {
                    Ok(())
                } else {
                    let ghost prev = self.commands@;
                    self.commands.push(stored);
                    proof {
                        assert(views_of_commands(self.commands@) =~= views_of_commands(prev).push(
                            cm,
                        ));
                        assert(unique_rows(rows.push(cm)));
                    }
                    Ok(())
                }
            },
            CommandAddMode::Replace => {
                let ghost pred = |r: CommandModel| r.id != cm.id && r.name != cm.name;
                let mut kept: Vec<Command> = Vec::new();
                let mut i: usize = 0;
                proof {
                    assert(views_of_commands(kept@) =~= rows.take(0).filter(pred)) by {
                        reveal_with_fuel(Seq::filter, 1);
                        assert(rows.take(0) =~= Seq::<CommandModel>::empty());
                    }
                }
                while i < self.commands.len()
                    invariant
                        i <= self.commands@.len(),
                        rows == self@.commands,
                        rows.len() == self.commands@.len(),
                        cm == with_id(command@, id),
                        stored@ == cm,
                        pred == (|r: CommandModel| r.id != cm.id && r.name != cm.name),
                        views_of_commands(kept@) == rows.take(i as int).filter(pred),
                    decreases self.commands@.len() - i,
                {
                    let c: &Command = &self.commands[i];
                    proof {
                        assert(c@ == rows[i as int]);
                        assert(rows.take(i + 1) =~= rows.take(i as int).push(rows[i as int]));
                        lemma_filter_push(rows.take(i as int), rows[i as int], pred);
                    }
                    if c.id != id && !(c.name == stored.name) {
                        proof {
                            assert(pred(rows[i as int]));
                        }
                        let ghost prev = kept@;
                        kept.push(c.clone());
                        proof {
                            assert(views_of_commands(kept@) =~= views_of_commands(prev).push(
                                rows[i as int],
                            ));
                        }
                    } else {
                        proof {
                            assert(!pred(rows[i as int]));
                        }
                    }
                    i = i + 1;
                }
                proof {
                    assert(rows.take(rows.len() as int) =~= rows);
                }
                let ghost prev = kept@;
                kept.push(stored);
                self.commands = kept;
                proof {
                    assert(views_of_commands(self.commands@) =~= views_of_commands(prev).push(cm));
                    lemma_filter_unique(rows, pred);
                    lemma_filter_members(rows, pred);
                    let out = rows.filter(pred).push(cm);
                    assert forall|a: int, b: int| 0 <= a < b < out.len() implies out[a].id
                        != out[b].id && out[a].name != out[b].name by {
                        if b == out.len() - 1 {
                            assert(pred(out[a]));
                        }
                    }
                }
                Ok(())
            },
        }
    }

    /// Insert a freshly built command: a new random UUID is assigned, then
    /// the row is inserted under the chosen conflict policy. The id is
    /// returned even when an ignoring insert dropped the row, so a caller
    /// must not assume the returned id is queryable.
    pub fn add(&mut self, command: Command, mode: CommandAddMode) -> (r: Result<u128, Error>)
        requires
            old(self).wf(),
        ensures
            final(self).wf(),
            final(self)@.history == old(self)@.history,
            match r {
                Ok(id) => final(self)@.commands == rows_after_add(
                    old(self)@.commands,
                    with_id(command@, id),
                    mode,
                ) && insert_allowed(old(self)@.commands, with_id(command@, id), mode),
                Err(e) => e.kind == ErrorKind::Conflict && final(self)@ == old(self)@ && mode
                    == CommandAddMode::Error && (has_name(old(self)@.commands, command@.name)
                    || old(self)@.commands.len() > 0) && e.context.deep_view() == seq![
                    "Failed to add command: "@ + command@.command,
                ],
            },
            mode == CommandAddMode::Error && has_name(old(self)@.commands, command@.name)
                ==> r is Err,
    {
        let id = fresh_id();
        let ghost rows = self@.commands;
        let r = self.add_with_id(id, command, mode);
        match r {
            Ok(()) => Ok(id),
            Err(e) => {
                proof {
                    assert(rows_after_add(rows, with_id(command@, id), mode) == rows);
                    assert(self@ =~= old(self)@);
                    if !has_name(rows, command@.name) {
                        assert(has_id(rows, id));
                        let k = choose|k: int| 0 <= k < rows.len() && rows[k].id == id;
                        assert(rows.len() > 0);
                    }
                }
                Err(e)
            },
        }
    }

    /// Remove the row with this id; removing an absent id changes nothing
    /// and is no error.
    pub fn delete(&mut self, id: u128)
        requires
            old(self).wf(),
        ensures
            final(self).wf(),
            final(self)@.history == old(self)@.history,
            final(self)@.commands == rows_after_delete(old(self)@.commands, id),
            !has_id(old(self)@.commands, id) ==> final(self)@.commands == old(self)@.commands,
    {
        let ghost rows = self@.commands;
        let ghost pred = |c: CommandModel| c.id != id;
        let mut kept: Vec<Command> = Vec::new();
        let mut i: usize = 0;
        proof {
            assert(views_of_commands(kept@) =~= rows.take(0).filter(pred)) by {
                reveal_with_fuel(Seq::filter, 1);
                assert(rows.take(0) =~= Seq::<CommandModel>::empty());
            }
        }
        while i < self.commands.len()
            invariant
                i <= self.commands@.len(),
                rows == self@.commands,
                rows.len() == self.commands@.len(),
                pred == (|c: CommandModel| c.id != id),
                views_of_commands(kept@) == rows.take(i as int).filter(pred),
            decreases self.commands@.len() - i,
        {
            let c: &Command = &self.commands[i];
            proof {
                assert(c@ == rows[i as int]);
                assert(rows.take(i + 1) =~= rows.take(i as int).push(rows[i as int]));
                lemma_filter_push(rows.take(i as int), rows[i as int], pred);
            }
            if c.id != id {
                let ghost prev = kept@;
                kept.push(c.clone());
                proof {
                    assert(views_of_commands(kept@) =~= views_of_commands(prev).push(
                        rows[i as int],
                    ));
                }
            }
            i = i + 1;
        }
        self.commands = kept;
        proof {
            assert(rows.take(rows.len() as int) =~= rows);
            lemma_filter_unique(rows, pred);
            if !has_id(rows, id) {
                assert(forall|k: int| 0 <= k < rows.len() ==> pred(#[trigger] rows[k]));
                lemma_filter_all_true(rows, pred);
            }
        }
    }

    /// Remove every command row; the history is kept.
    pub fn delete_all(&mut self)
        ensures
            final(self).wf(),
            final(self)@.history == old(self)@.history,
            final(self)@.commands == Seq::<CommandModel>::empty(),
    {
        self.commands.clear();
        proof {
            assert(views_of_commands(self.commands@) =~= Seq::<CommandModel>::empty());
        }
    }

    /// How many history rows have been recorded.
    pub fn history_len(&self) -> (n: usize)
        ensures
            n as nat == self@.history.len(),
    {
        self.history.len()
    }

    /// The recorded history row at `i`, in append order.
    pub fn history_at(&self, i: usize) -> (r: &HistoryRow)
        requires
            i < self@.history.len(),
        ensures
            r@ == self@.history[i as int],
    {
        &self.history[i]
    }

    /// Resolve an identifier to exactly one stored command: by id, by exact
    /// name, or — for a pattern — the first matching row in store order,
    /// silently discarding the rest.
    pub fn resolve(&self, identifier: &Identifier) -> (r: Result<Command, Error>)
        ensures
            match r {
                Ok(c) => resolve_spec(self@.commands, identifier@) == Ok::<CommandModel, ErrorKind>(
                    c@,
                ) && has_id(self@.commands, c@.id),
                Err(e) => resolve_spec(self@.commands, identifier@) == Err::<
                    CommandModel,
                    ErrorKind,
                >(e.kind) && e.kind == ErrorKind::NotFound,
            },
    {
        match identifier {
            Identifier::Id(u) => {
                let r = self.get(*u);
                match r {
                    Ok(c) => {
                        proof {
                            lemma_find_id_member(self@.commands, *u);
                        }
                        Ok(c)
                    },
                    Err(e) => Err(e),
                }
            },
            Identifier::Name(n) => {
                let r = self.get_by_name(n);
                match r {
                    Ok(c) => {
                        proof {
                            lemma_find_name_member(self@.commands, n@);
                        }
                        Ok(c)
                    },
                    Err(e) => Err(e),
                }
            },
            Identifier::Like(p) => {
                match self.like(p) {
                    Ok(v) => {
                        let c = v[0].clone();
                        proof {
                            let ms = like_matches(self@.commands, p@);
                            assert(c@ == ms[0]);
                            lemma_filter_members(
                                self@.commands,
                                |x: CommandModel| matches_like(x, p@),
                            );
                            assert(self@.commands.contains(ms[0]));
                            let w = choose|w: int|
                                0 <= w < self@.commands.len() && self@.commands[w] == ms[0];
                            assert(self@.commands[w].id == c@.id);
                        }
                        Ok(c)
                    },
                    Err(e) => Err(e),
                }
            },
        }
    }
}

/// One filtering step: extending the rows by one element extends the
/// filtered rows exactly when the element passes the test.
pub proof fn lemma_filter_push<A>(s: Seq<A>, x: A, pred: spec_fn(A) -> bool)
    ensures
        s.push(x).filter(pred) == if pred(x) {
            s.filter(pred).push(x)
        } else {
            s.filter(pred)
        },
{
    reveal_with_fuel(Seq::filter, 1);
    let pushed = s.push(x);
    assert(pushed.drop_last() =~= s);
    assert(pushed.last() == x);
}

/// One matching step for the substring search.
proof fn lemma_like_matches_push(s: Seq<CommandModel>, x: CommandModel, pattern: Seq<char>)
    ensures
        like_matches(s.push(x), pattern) == if matches_like(x, pattern) {
            like_matches(s, pattern).push(x)
        } else {
            like_matches(s, pattern)
        },
{
    lemma_filter_push(s, x, |c: CommandModel| matches_like(c, pattern));
}

impl Output {
    /// Record this output against the command that produced it: one row is
    /// appended to the history; nothing else changes. Every recorded row
    /// references a command id present at the time of recording.
    pub fn save(&self, store: &mut Store, command_id: u128)
        requires
            old(store).wf(),
            has_id(old(store)@.commands, command_id),
        ensures
            final(store).wf(),
            final(store)@.commands == old(store)@.commands,
            final(store)@.history == old(store)@.history.push(history_entry(self@, command_id)),
    {
        let ghost prev = store.history@;
        let row = HistoryRow {
            command_id,
            stdout: self.stdout.clone(),
            stderr: self.stderr.clone(),
            success: self.status.success,
            code: self.status.code,
        };
        store.history.push(row);
        proof {
            assert(views_of_history(store.history@) =~= views_of_history(prev).push(
                history_entry(self@, command_id),
            ));
        }
    }
}

} // verus!

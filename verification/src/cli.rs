use crate::command::Command;
use crate::command::CommandAddMode;
use crate::command::CommandModel;
use crate::command::Identifier;
use crate::command::IdentifierModel;
use crate::errors::Error;
use crate::errors::ErrorKind;
use crate::store::like_matches;
use crate::store::resolve_spec;
use crate::store::rows_after_delete;
use crate::store::views_of_commands;
use crate::store::Store;
use vstd::prelude::*;

verus! {

/// Arguments of the serve command: where the HTTP API listens.
#[derive(Debug)]
pub struct Run {
    /// Listen address, as text; the surrounding program parses it.
    pub host: Option<String>,
    /// Listen port.
    pub port: Option<u16>,
}

/// Arguments of the add command.
#[derive(Debug)]
pub struct Add {
    /// Silently drop the insert when the name collides.
    pub ignore: bool,
    /// Overwrite the colliding row when the name collides.
    pub replace: bool,
    pub name: String,
    pub command: String,
    pub args: Vec<String>,
}

impl Add {
    /// The conflict policy the two flags choose; contradictory or absent
    /// flags fall back to the erroring mode.
    pub fn mode(&self) -> (m: CommandAddMode)
        ensures
            self.ignore && !self.replace ==> m == CommandAddMode::Ignore,
            !self.ignore && self.replace ==> m == CommandAddMode::Replace,
            self.ignore == self.replace ==> m == CommandAddMode::Error,
    {
        match (self.ignore, self.replace) {
            (true, false) => CommandAddMode::Ignore,
            (false, true) => CommandAddMode::Replace,
            _ => CommandAddMode::Error,
        }
    }
}

/// Arguments of the list command.
#[derive(Debug)]
pub struct List {
    /// Keep only rows whose name or executable contains this text.
    pub name: Option<String>,
    /// Keep only rows whose name or executable contains this text.
    pub command: Option<String>,
    /// Also print each row's id.
    pub verbose: bool,
}

/// What listing yields: a substring filter when one was given — the name
/// filter wins over the command filter — else every row.
pub open spec fn list_selection_spec(
    rows: Seq<CommandModel>,
    name: Option<Seq<char>>,
    command: Option<Seq<char>>,
) -> Result<Seq<CommandModel>, ErrorKind> {
    match name {
        Some(p) => like_result_spec(rows, p),
        None => match command {
            Some(p) => like_result_spec(rows, p),
            None => Ok(rows),
        },
    }
}

/// A substring search result: the matching rows, or `NotFound` when none
/// match.
pub open spec fn like_result_spec(rows: Seq<CommandModel>, pattern: Seq<char>) -> Result<
    Seq<CommandModel>,
    ErrorKind,
> {
    if like_matches(rows, pattern).len() == 0 {
        Err(ErrorKind::NotFound)
    } else {
        Ok(like_matches(rows, pattern))
    }
}

impl List {
    /// The rows this listing shows, in store order.
    pub fn selection(&self, store: &Store) -> (r: Result<Vec<Command>, Error>)
        ensures
            match list_selection_spec(
                store@.commands,
                self.name.deep_view(),
                self.command.deep_view(),
            ) {
                Ok(rows) => r matches Ok(v) && views_of_commands(v@) == rows,
                Err(k) => r matches Err(e) && e.kind == k,
            },
    {
        if let Some(p) = &self.name {
            store.like(p)
        } else if let Some(p) = &self.command {
            store.like(p)
        } else {
            Ok(store.list())
        }
    }
}

/// Arguments of the remove command.
#[derive(Debug)]
pub struct Rm {
    /// Remove by exact name.
    pub name: Option<String>,
    /// Remove by substring match on name or executable.
    pub command: Option<String>,
    /// Remove by id.
    pub id: Option<u128>,
    /// Remove every row.
    pub all: bool,
}

/// The identifier a remove request names: id wins over name, name over the
/// substring pattern; a request with none of them is rejected.
pub open spec fn rm_identifier_spec(rm: &Rm) -> Result<IdentifierModel, ErrorKind> {
    match rm.id {
        Some(u) => Ok(IdentifierModel::ById(u)),
        None => match rm.name {
            Some(n) => Ok(IdentifierModel::ByName(n@)),
            None => match rm.command {
                Some(p) => Ok(IdentifierModel::ByLike(p@)),
                None => Err(ErrorKind::InvalidIdentifier),
            },
        },
    }
}

impl Rm {
    /// The identifier to remove by: id, exact name, or substring pattern,
    /// in that priority order.
    pub fn to_identifier(&self) -> (r: Result<Identifier, Error>)
        ensures
            match rm_identifier_spec(self) {
                Ok(im) => r matches Ok(i) && i@ == im,
                Err(k) => r matches Err(e) && e.kind == k && e.context.deep_view() == seq![
                    "No identifier provided for removal"@,
                ],
            },
    {
        if let Some(u) = self.id {
            Ok(Identifier::Id(u))
        } else if let Some(n) = &self.name {
            Ok(Identifier::Name(n.clone()))
        } else if let Some(p) = &self.command {
            Ok(Identifier::Like(p.clone()))
        } else {
            let e = Error::new(ErrorKind::InvalidIdentifier).attach(
                "No identifier provided for removal",
            );
            proof {
                assert(e.context.deep_view() =~= seq!["No identifier provided for removal"@]);
            }
            Err(e)
        }
    }
}

/// Carry out a remove request: everything, or the one row the request's
/// identifier resolves to.
pub fn handle_rm(store: &mut Store, rm: &Rm) -> (r: Result<(), Error>)
    requires
        old(store).wf(),
    ensures
        final(store).wf(),
        final(store)@.history == old(store)@.history,
        rm.all ==> r is Ok && final(store)@.commands == Seq::<CommandModel>::empty(),
        !rm.all ==> (match rm_identifier_spec(rm) {
            Err(k) => r matches Err(e) && e.kind == k && final(store)@.commands
                == old(store)@.commands,
            Ok(im) => match resolve_spec(old(store)@.commands, im) {
                Err(k) => r matches Err(e) && e.kind == k && final(store)@.commands
                    == old(store)@.commands,
                Ok(cm) => r is Ok && final(store)@.commands == rows_after_delete(
                    old(store)@.commands,
                    cm.id,
                ),
            },
        }),
{
    if rm.all {
        store.delete_all();
        Ok(())
    } else {
        let identifier = match rm.to_identifier() {
            Ok(i) => i,
            Err(e) => {
                return Err(e);
            },
        };
        crate::routes::handle_delete(store, &identifier)
    }
}

} // verus!

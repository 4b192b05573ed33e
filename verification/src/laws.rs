use crate::command::CommandAddMode;
use crate::command::CommandModel;
use crate::errors::ErrorKind;
use crate::placeholder::resolved_args_spec;
use vstd::prelude::*;

use crate::store::find_id;
use crate::store::find_name;
use crate::store::has_id;
use crate::store::has_name;
use crate::store::insert_allowed;
use crate::store::lemma_filter_all_true;
use crate::store::lemma_find_id_at;
use crate::store::lemma_find_name_at;
use crate::store::rows_after_add;
use crate::store::rows_after_delete;
use crate::store::unique_rows;

verus! {

broadcast use vstd::seq_lib::group_seq_lib_default;

/// A command added and then fetched by its id comes back exactly as it was
/// inserted: same name, executable and arguments, under the store-assigned
/// id. The premises say that the insert really wrote the row: the assigned
/// id is fresh, and under the erroring and ignoring modes the name does not
/// collide.
pub proof fn lemma_add_then_get(rows: Seq<CommandModel>, c: CommandModel, mode: CommandAddMode)
    requires
        unique_rows(rows),
        !has_id(rows, c.id),
        (mode == CommandAddMode::Error || mode == CommandAddMode::Ignore) ==> !has_name(
            rows,
            c.name,
        ),
    ensures
        find_id(rows_after_add(rows, c, mode), c.id) == Some(c),
{
    let out = rows_after_add(rows, c, mode);
    match mode {
        CommandAddMode::Error | CommandAddMode::Ignore => {
            assert(out == rows.push(c));
            assert(forall|k: int| 0 <= k < rows.len() ==> #[trigger] rows[k].id != c.id);
            lemma_find_id_at(out, c.id, rows.len() as int);
        },
        CommandAddMode::Replace => {
            let pred = |r: CommandModel| r.id != c.id && r.name != c.name;
            let kept = rows.filter(pred);
            assert(out == kept.push(c));
            assert(forall|k: int| 0 <= k < kept.len() ==> #[trigger] out[k].id != c.id) by {
                assert(forall|k: int| 0 <= k < kept.len() ==> pred(#[trigger] kept[k]));
            }
            lemma_find_id_at(out, c.id, kept.len() as int);
        },
    }
}

/// Two commands with the same name, the first already inserted: under the
/// erroring mode the second insert is refused and writes nothing; under the
/// ignoring mode it is dropped and a fetch by name still yields the first;
/// under the replacing mode a fetch by name yields the second.
pub proof fn lemma_conflicting_name_modes(
    rows: Seq<CommandModel>,
    first: CommandModel,
    second: CommandModel,
)
    requires
        unique_rows(rows),
        !has_id(rows, first.id),
        !has_name(rows, first.name),
        second.name == first.name,
        second.id != first.id,
    ensures
        ({
            let rows1 = rows_after_add(rows, first, CommandAddMode::Error);
            &&& rows1 == rows.push(first)
            &&& !insert_allowed(rows1, second, CommandAddMode::Error)
            &&& rows_after_add(rows1, second, CommandAddMode::Error) == rows1
            &&& rows_after_add(rows1, second, CommandAddMode::Ignore) == rows1
            &&& find_name(rows_after_add(rows1, second, CommandAddMode::Ignore), second.name)
                == Some(first)
            &&& find_name(rows_after_add(rows1, second, CommandAddMode::Replace), second.name)
                == Some(second)
        }),
{
    let rows1 = rows_after_add(rows, first, CommandAddMode::Error);
    assert(rows1 == rows.push(first));
    assert(has_name(rows1, second.name)) by {
        assert(rows1[rows.len() as int].name == second.name);
    }
    assert(forall|k: int| 0 <= k < rows.len() ==> #[trigger] rows[k].name != first.name);
    assert(forall|k: int| 0 <= k < rows.len() ==> #[trigger] rows1[k].name != second.name);
    lemma_find_name_at(rows1, second.name, rows.len() as int);
    assert(find_name(rows_after_add(rows1, second, CommandAddMode::Ignore), second.name) == Some(
        first,
    ));
    let pred = |r: CommandModel| r.id != second.id && r.name != second.name;
    let kept = rows1.filter(pred);
    let rows2 = rows_after_add(rows1, second, CommandAddMode::Replace);
    assert(rows2 == kept.push(second));
    assert(forall|k: int| 0 <= k < kept.len() ==> #[trigger] rows2[k].name != second.name) by {
        assert(forall|k: int| 0 <= k < kept.len() ==> pred(#[trigger] kept[k]));
    }
    lemma_find_name_at(rows2, second.name, kept.len() as int);
}

/// The sharp edge of the ignoring mode: a colliding insert is dropped, yet
/// the freshly assigned id was returned — and that id resolves to nothing.
pub proof fn lemma_ignored_id_is_not_queryable(rows: Seq<CommandModel>, c: CommandModel)
    requires
        has_name(rows, c.name),
        !has_id(rows, c.id),
    ensures
        rows_after_add(rows, c, CommandAddMode::Ignore) == rows,
        find_id(rows_after_add(rows, c, CommandAddMode::Ignore), c.id) is None,
{
    assert(forall|k: int| 0 <= k < rows.len() ==> #[trigger] rows[k].id != c.id);
    crate::store::lemma_find_id_none(rows, c.id);
}

/// An empty substitution map skips substitution entirely: the argument
/// templates run verbatim, whatever they hold.
pub proof fn lemma_empty_map_runs_templates_verbatim(args: Seq<Seq<char>>)
    ensures
        resolved_args_spec(args, Map::<Seq<char>, Seq<char>>::empty()) == Ok::<
            Seq<Seq<char>>,
            ErrorKind,
        >(args),
{
}

/// Deleting an id that no row carries changes nothing, and is no error.
pub proof fn lemma_delete_absent_is_noop(rows: Seq<CommandModel>, id: u128)
    requires
        !has_id(rows, id),
    ensures
        rows_after_delete(rows, id) == rows,
{
    let pred = |c: CommandModel| c.id != id;
    assert(forall|k: int| 0 <= k < rows.len() ==> pred(#[trigger] rows[k]));
    lemma_filter_all_true(rows, pred);
}

} // verus!

use crate::command::clone_strings;
use crate::command::Command;
use crate::errors::Error;
use crate::errors::ErrorKind;
use vstd::prelude::*;

verus! {

/// The argument contains a placeholder: a `{`, later a `}`.
pub open spec fn has_placeholder(s: Seq<char>) -> bool {
    exists|i: int, j: int| 0 <= i < j < s.len() && s[i] == '{' && s[j] == '}'
}

/// `i` is the position of the first `{` in `s`.
pub open spec fn is_first_open(s: Seq<char>, i: int) -> bool {
    0 <= i < s.len() && s[i] == '{' && forall|k: int| 0 <= k < i ==> s[k] != '{'
}

/// `j` is the position of the last `}` in `s`.
pub open spec fn is_last_close(s: Seq<char>, j: int) -> bool {
    0 <= j < s.len() && s[j] == '}' && forall|k: int| j < k < s.len() ==> s[k] != '}'
}

/// Position of the first `{` in `s`, where one exists.
pub open spec fn first_open(s: Seq<char>) -> int {
    choose|i: int| is_first_open(s, i)
}

/// Position of the last `}` in `s`, where one exists.
pub open spec fn last_close(s: Seq<char>) -> int {
    choose|j: int| is_last_close(s, j)
}

/// The brace span runs greedily from the first `{` to the last `}`; this is
/// the argument with that whole span replaced by `v`.
pub open spec fn replaced(s: Seq<char>, v: Seq<char>) -> Seq<char> {
    s.take(first_open(s)) + v + s.skip(last_close(s) + 1)
}

proof fn lemma_first_open_unique(s: Seq<char>, i: int, j: int)
    requires
        is_first_open(s, i),
        is_first_open(s, j),
    ensures
        i == j,
{
    if i < j {
        assert(s[i] != '{');
    }
    if j < i {
        assert(s[j] != '{');
    }
}

proof fn lemma_last_close_unique(s: Seq<char>, i: int, j: int)
    requires
        is_last_close(s, i),
        is_last_close(s, j),
    ensures
        i == j,
{
    if i < j {
        assert(s[j] != '}');
    }
    if j < i {
        assert(s[i] != '}');
    }
}

/// In a placeholder-bearing argument the first `{` stands before the last `}`.
proof fn lemma_span_order(s: Seq<char>, i: int, j: int)
    requires
        has_placeholder(s),
        is_first_open(s, i),
        is_last_close(s, j),
    ensures
        i < j,
{
    let (wi, wj) = choose|wi: int, wj: int| 0 <= wi < wj < s.len() && s[wi] == '{' && s[wj] == '}';
    if wi < i {
        assert(s[wi] != '{');
    }
    if wj > j {
        assert(s[wj] != '}');
    }
}

proof fn lemma_no_open_no_placeholder(s: Seq<char>)
    requires
        forall|k: int| 0 <= k < s.len() ==> s[k] != '{',
    ensures
        !has_placeholder(s),
{
    if has_placeholder(s) {
        let (wi, wj) = choose|wi: int, wj: int| 0 <= wi < wj < s.len() && s[wi] == '{' && s[wj]
            == '}';
        assert(s[wi] != '{');
    }
}

proof fn lemma_no_close_no_placeholder(s: Seq<char>)
    requires
        forall|k: int| 0 <= k < s.len() ==> s[k] != '}',
    ensures
        !has_placeholder(s),
{
    if has_placeholder(s) {
        let (wi, wj) = choose|wi: int, wj: int| 0 <= wi < wj < s.len() && s[wi] == '{' && s[wj]
            == '}';
        assert(s[wj] != '}');
    }
}

/// The position of the first `{`, or `None` when the argument has none.
fn find_first_open(s: &str) -> (r: Option<usize>)
    ensures
        match r {
            Some(i) => is_first_open(s@, i as int),
            None => forall|k: int| 0 <= k < s@.len() ==> s@[k] != '{',
        },
{
    let n = s.unicode_len();
    let mut i: usize = 0;
    while i < n
        invariant
            n == s@.len(),
            i <= n,
            forall|k: int| 0 <= k < i ==> s@[k] != '{',
        decreases n - i,
    {
        if s.get_char(i) == '{' {
            return Some(i);
        }
        i = i + 1;
    }
    None
}

/// The position of the last `}`, or `None` when the argument has none.
fn find_last_close(s: &str) -> (r: Option<usize>)
    ensures
        match r {
            Some(j) => is_last_close(s@, j as int),
            None => forall|k: int| 0 <= k < s@.len() ==> s@[k] != '}',
        },
{
    let n = s.unicode_len();
    let mut i: usize = n;
    while i > 0
        invariant
            n == s@.len(),
            i <= n,
            forall|k: int| i <= k < n ==> s@[k] != '}',
        decreases i,
    {
        i = i - 1;
        if s.get_char(i) == '}' {
            return Some(i);
        }
    }
    None
}

/// Placeholder detection: whether the argument holds a brace span.
pub fn contains_placeholder(s: &str) -> (r: bool)
    ensures
        r == has_placeholder(s@),
{
    let fo = find_first_open(s);
    let lc = find_last_close(s);
    match (fo, lc) {
        (Some(i), Some(j)) => {
            if i < j {
                assert(has_placeholder(s@)) by {
                    assert(0 <= i < j < s@.len() && s@[i as int] == '{' && s@[j as int] == '}');
                }
                true
            } else {
                proof {
                    if has_placeholder(s@) {
                        lemma_span_order(s@, i as int, j as int);
                    }
                }
                false
            }
        },
        (None, _) => {
            proof {
                lemma_no_open_no_placeholder(s@);
            }
            false
        },
        (_, None) => {
            proof {
                lemma_no_close_no_placeholder(s@);
            }
            false
        },
    }
}

/// Replace the brace span of `s` — first `{` through last `}` — with `v`;
/// the text before and after the span is kept.
pub fn replace_placeholder(s: &str, v: &str) -> (r: String)
    requires
        has_placeholder(s@),
    ensures
        r@ == replaced(s@, v@),
{
    let n = s.unicode_len();
    let i = match find_first_open(s) {
        Some(i) => i,
        None => {
            proof {
                lemma_no_open_no_placeholder(s@);
            }
            unreached()
        },
    };
    let j = match find_last_close(s) {
        Some(j) => j,
        None => {
            proof {
                lemma_no_close_no_placeholder(s@);
            }
            unreached()
        },
    };
    proof {
        assert(is_first_open(s@, first_open(s@))) by {
            assert(is_first_open(s@, i as int));
        }
        lemma_first_open_unique(s@, i as int, first_open(s@));
        assert(is_last_close(s@, last_close(s@))) by {
            assert(is_last_close(s@, j as int));
        }
        lemma_last_close_unique(s@, j as int, last_close(s@));
    }
    let prefix = s.substring_char(0, i);
    let suffix = s.substring_char(j + 1, n);
    let r = String::from_str(prefix).concat(v).concat(suffix);
    proof {
        assert(prefix@ == s@.take(i as int));
        assert(suffix@ == s@.skip(j + 1));
    }
    r
}

/// A substitution map from the full original argument text to its
/// replacement value; later entries for the same key override earlier ones.
pub struct Substitutions {
    entries: Vec<(String, String)>,
}

spec fn map_of(entries: Seq<(String, String)>) -> Map<Seq<char>, Seq<char>>
    decreases entries.len(),
{
    if entries.len() == 0 {
        Map::empty()
    } else {
        map_of(entries.drop_last()).insert(entries.last().0@, entries.last().1@)
    }
}

proof fn lemma_map_of_found(entries: Seq<(String, String)>, k: Seq<char>, j: int)
    requires
        0 <= j < entries.len(),
        entries[j].0@ == k,
        forall|l: int| j < l < entries.len() ==> entries[l].0@ != k,
    ensures
        map_of(entries).contains_key(k),
        map_of(entries)[k] == entries[j].1@,
    decreases entries.len(),
{
    let dl = entries.drop_last();
    if j == entries.len() - 1 {
        assert(entries.last() == entries[j]);
    } else {
        assert(entries.last() == entries[entries.len() - 1]);
        assert(entries[entries.len() - 1].0@ != k);
        assert(dl[j] == entries[j]);
        lemma_map_of_found(dl, k, j);
    }
}

proof fn lemma_map_of_absent(entries: Seq<(String, String)>, k: Seq<char>)
    requires
        forall|l: int| 0 <= l < entries.len() ==> entries[l].0@ != k,
    ensures
        !map_of(entries).contains_key(k),
    decreases entries.len(),
{
    if entries.len() > 0 {
        let dl = entries.drop_last();
        assert(forall|l: int| 0 <= l < dl.len() ==> dl[l] == entries[l]);
        lemma_map_of_absent(dl, k);
        assert(entries.last() == entries[entries.len() - 1]);
    }
}

impl View for Substitutions {
    type V = Map<Seq<char>, Seq<char>>;

    closed spec fn view(&self) -> Map<Seq<char>, Seq<char>> {
        map_of(self.entries@)
    }
}

impl Substitutions {
    /// An empty substitution map.
    pub fn new() -> (s: Substitutions)
        ensures
            s@ == Map::<Seq<char>, Seq<char>>::empty(),
    {
        Substitutions { entries: Vec::new() }
    }

    /// Bind `key` — the whole original argument text — to `value`,
    /// overriding any earlier binding of the same key.
    pub fn insert(&mut self, key: String, value: String)
        ensures
            final(self)@ == old(self)@.insert(key@, value@),
    {
        let ghost es = self.entries@;
        let ghost kv = key@;
        let ghost vv = value@;
        self.entries.push((key, value));
        proof {
            assert(self.entries@.drop_last() =~= es);
            assert(self.entries@.last().0@ == kv);
            assert(self.entries@.last().1@ == vv);
        }
    }

    /// Look up the whole original argument text.
    pub fn get(&self, key: &String) -> (r: Option<&String>)
        ensures
            match r {
                Some(v) => self@.contains_key(key@) && v@ == self@[key@],
                None => !self@.contains_key(key@),
            },
    {
        let mut i: usize = self.entries.len();
        while i > 0
            invariant
                i <= self.entries@.len(),
                forall|l: int| i <= l < self.entries@.len() ==> self.entries@[l].0@ != key@,
            decreases i,
        {
            i = i - 1;
            let pair: &(String, String) = &self.entries[i];
            if pair.0 == *key {
                proof {
                    lemma_map_of_found(self.entries@, key@, i as int);
                }
                return Some(&pair.1);
            }
        }
        proof {
            lemma_map_of_absent(self.entries@, key@);
        }
        None
    }

    /// Whether no binding at all was supplied.
    pub fn is_empty(&self) -> (r: bool)
        ensures
            r == (self@ == Map::<Seq<char>, Seq<char>>::empty()),
    {
        let r = self.entries.len() == 0;
        proof {
            if self.entries@.len() > 0 {
                assert(self@.contains_key(self.entries@.last().0@));
            }
        }
        r
    }
}

/// Substitution of a single argument: an argument without a brace span
/// passes through; one with a span is looked up — by its whole original
/// text — and its span replaced, which must not leave the argument empty.
pub open spec fn subst_arg(arg: Seq<char>, m: Map<Seq<char>, Seq<char>>) -> Result<
    Seq<char>,
    ErrorKind,
> {
    if !has_placeholder(arg) {
        Ok(arg)
    } else if !m.contains_key(arg) {
        Err(ErrorKind::MissingPlaceholder)
    } else if replaced(arg, m[arg]).len() == 0 {
        Err(ErrorKind::EmptyReplacement)
    } else {
        Ok(replaced(arg, m[arg]))
    }
}

/// Substitution of an argument list, in order; the first failing argument
/// decides the error, and no partial result is produced.
pub open spec fn subst_args(args: Seq<Seq<char>>, m: Map<Seq<char>, Seq<char>>) -> Result<
    Seq<Seq<char>>,
    ErrorKind,
> {
    subst_args_rec(args, m)
}

pub open spec fn subst_args_rec(args: Seq<Seq<char>>, m: Map<Seq<char>, Seq<char>>) -> Result<
    Seq<Seq<char>>,
    ErrorKind,
>
    decreases args.len(),
{
    if args.len() == 0 {
        Ok(Seq::empty())
    } else {
        match subst_args_rec(args.drop_last(), m) {
            Err(k) => Err(k),
            Ok(init) => match subst_arg(args.last(), m) {
                Err(k) => Err(k),
                Ok(a) => Ok(init.push(a)),
            },
        }
    }
}

/// A failing prefix decides the whole list.
proof fn lemma_subst_args_extends_err(
    args: Seq<Seq<char>>,
    m: Map<Seq<char>, Seq<char>>,
    i: int,
    j: int,
)
    requires
        0 <= i <= j <= args.len(),
        subst_args(args.take(i), m) is Err,
    ensures
        subst_args(args.take(j), m) == subst_args(args.take(i), m),
    decreases j - i,
{
    if i < j {
        lemma_subst_args_extends_err(args, m, i, j - 1);
        assert(args.take(j).drop_last() =~= args.take(j - 1));
    }
}

/// What resolution yields: an empty map skips substitution entirely and the
/// templates run verbatim; otherwise every argument is substituted.
pub open spec fn resolved_args_spec(args: Seq<Seq<char>>, m: Map<Seq<char>, Seq<char>>) -> Result<
    Seq<Seq<char>>,
    ErrorKind,
> {
    if m == Map::<Seq<char>, Seq<char>>::empty() {
        Ok(args)
    } else {
        subst_args(args, m)
    }
}

/// The single context line attached to a failed substitution.
pub open spec fn placeholder_error_message(k: ErrorKind, command: Seq<char>) -> Seq<char> {
    if k == ErrorKind::MissingPlaceholder {
        "Not enough arguments provided for command: "@ + command
    } else {
        "Replacement resulted in an empty argument for command: "@ + command
    }
}

impl Command {
    /// The placeholder engine: rewrite this command's argument templates
    /// against the supplied substitution map.
    pub fn resolved_args(&self, subs: &Substitutions) -> (r: Result<Vec<String>, Error>)
        ensures
            match resolved_args_spec(self@.args, subs@) {
                Ok(res) => r matches Ok(v) && v.deep_view() == res,
                Err(k) => r matches Err(e) && e.kind == k && e.context.deep_view() == seq![
                    placeholder_error_message(k, self@.command),
                ],
            },
    {
        let ghost m = subs@;
        let ghost args_dv = self.args.deep_view();
        if subs.is_empty() {
            let v = clone_strings(&self.args);
            proof {
                assert(v.deep_view() =~= args_dv);
            }
            return Ok(v);
        }
        let mut out: Vec<String> = Vec::new();
        let mut i: usize = 0;
        proof {
            assert(args_dv.take(0) =~= Seq::<Seq<char>>::empty());
            assert(out.deep_view() =~= Seq::<Seq<char>>::empty());
        }
        while i < self.args.len()
            invariant
                0 <= i <= self.args@.len(),
                m == subs@,
                !(m == Map::<Seq<char>, Seq<char>>::empty()),
                args_dv == self.args.deep_view(),
                args_dv.len() == self.args@.len(),
                subst_args(args_dv.take(i as int), m) == Ok::<Seq<Seq<char>>, ErrorKind>(
                    out.deep_view(),
                ),
            decreases self.args@.len() - i,
        {
            let arg: &String = &self.args[i];
            proof {
                assert(arg@ == args_dv[i as int]);
                assert(args_dv.take(i + 1).drop_last() =~= args_dv.take(i as int));
                assert(args_dv.take(i + 1).last() == args_dv[i as int]);
            }
            if contains_placeholder(arg.as_str()) {
                match subs.get(arg) {
                    Some(value) => {
                        let rep = replace_placeholder(arg.as_str(), value.as_str());
                        if rep.as_str().is_empty() {
                            proof {
                                assert(subst_args(args_dv.take(i + 1), m) == Err::<
                                    Seq<Seq<char>>,
                                    ErrorKind,
                                >(ErrorKind::EmptyReplacement));
                                lemma_subst_args_extends_err(
                                    args_dv,
                                    m,
                                    i + 1,
                                    args_dv.len() as int,
                                );
                                assert(args_dv.take(args_dv.len() as int) =~= args_dv);
                            }
                            let msg = String::from_str(
                                "Replacement resulted in an empty argument for command: ",
                            ).concat(self.command.as_str());
                            let e = Error::new(ErrorKind::EmptyReplacement).attach(msg.as_str());
                            proof {
                                assert(e.context.deep_view() =~= seq![
                                    placeholder_error_message(
                                        ErrorKind::EmptyReplacement,
                                        self@.command,
                                    ),
                                ]);
                            }
                            return Err(e);
                        }
                        let ghost out_dv = out.deep_view();
                        out.push(rep);
                        proof {
                            assert(out.deep_view() =~= out_dv.push(rep@));
                        }
                    },
                    None => {
                        proof {
                            assert(subst_args(args_dv.take(i + 1), m) == Err::<
                                Seq<Seq<char>>,
                                ErrorKind,
                            >(ErrorKind::MissingPlaceholder));
                            lemma_subst_args_extends_err(args_dv, m, i + 1, args_dv.len() as int);
                            assert(args_dv.take(args_dv.len() as int) =~= args_dv);
                        }
                        let msg = String::from_str(
                            "Not enough arguments provided for command: ",
                        ).concat(self.command.as_str());
                        let e = Error::new(ErrorKind::MissingPlaceholder).attach(msg.as_str());
                        proof {
                            assert(e.context.deep_view() =~= seq![
                                placeholder_error_message(
                                    ErrorKind::MissingPlaceholder,
                                    self@.command,
                                ),
                            ]);
                        }
                        return Err(e);
                    },
                }
            } else {
                let ghost out_dv = out.deep_view();
                out.push(arg.clone());
                proof {
                    assert(out.deep_view() =~= out_dv.push(arg@));
                }
            }
            i = i + 1;
        }
        proof {
            assert(args_dv.take(args_dv.len() as int) =~= args_dv);
        }
        Ok(out)
    }
}

} // verus!

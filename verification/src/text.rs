use vstd::prelude::*;

verus! {

/// The needle `n` occurs in `h` starting at position `i`.
pub open spec fn match_at(h: Seq<char>, n: Seq<char>, i: int) -> bool {
    0 <= i && i + n.len() <= h.len() && forall|k: int| 0 <= k < n.len() ==> h[i + k] == #[trigger] n[k]
}

/// `n` occurs somewhere in `h` as a contiguous run (case-sensitive).
pub open spec fn contains_sub(h: Seq<char>, n: Seq<char>) -> bool {
    exists|i: int| match_at(h, n, i)
}

/// Whether the needle characters match `h` at position `i`.
fn is_match_at(h: &str, n: &str, i: usize) -> (r: bool)
    requires
        i + n@.len() <= h@.len(),
    ensures
        r == match_at(h@, n@, i as int),
{
    let hn = h.unicode_len();
    let nn = n.unicode_len();
    let mut k: usize = 0;
    while k < nn
        invariant
            k <= nn,
            nn == n@.len(),
            hn == h@.len(),
            i + nn <= hn,
            forall|y: int| 0 <= y < k ==> h@[i + y] == #[trigger] n@[y],
        decreases nn - k,
    {
        if h.get_char(i + k) != n.get_char(k) {
            assert(!match_at(h@, n@, i as int));
            return false;
        }
        k = k + 1;
    }
    true
}

/// Case-sensitive substring test: does `n` occur contiguously inside `h`?
/// An empty needle occurs in every haystack.
pub fn contains_substring(h: &str, n: &str) -> (r: bool)
    ensures
        r == contains_sub(h@, n@),
{
    let hn = h.unicode_len();
    let nn = n.unicode_len();
    if nn > hn {
        assert(forall|x: int| !match_at(h@, n@, x));
        return false;
    }
    let mut i: usize = 0;
    while i <= hn - nn
        invariant
            hn == h@.len(),
            nn == n@.len(),
            nn <= hn,
            i <= hn - nn + 1,
            forall|x: int| 0 <= x < i ==> !match_at(h@, n@, x),
        decreases hn - nn + 1 - i,
    {
        if is_match_at(h, n, i) {
            assert(contains_sub(h@, n@));
            return true;
        }
        i = i + 1;
    }
    assert(forall|x: int| !match_at(h@, n@, x));
    false
}

/// The parts joined in order with `sep` between neighbours.
pub open spec fn joined_with(parts: Seq<Seq<char>>, sep: Seq<char>) -> Seq<char>
    decreases parts.len(),
{
    if parts.len() == 0 {
        Seq::empty()
    } else if parts.len() == 1 {
        parts[0]
    } else {
        parts[0] + sep + joined_with(parts.drop_first(), sep)
    }
}

/// Joining grows on the right: appending a part appends `sep` plus the part.
pub proof fn lemma_joined_with_push(parts: Seq<Seq<char>>, sep: Seq<char>, entry: Seq<char>)
    ensures
        joined_with(parts.push(entry), sep) == if parts.len() == 0 {
            entry
        } else {
            joined_with(parts, sep) + sep + entry
        },
    decreases parts.len(),
{
    let pushed = parts.push(entry);
    if parts.len() == 0 {
        assert(pushed.len() == 1);
        assert(joined_with(pushed, sep) == pushed[0]);
        assert(pushed[0] == entry);
    } else {
        assert(pushed.drop_first() =~= parts.drop_first().push(entry));
        lemma_joined_with_push(parts.drop_first(), sep, entry);
        assert(joined_with(pushed, sep) == pushed[0] + sep + joined_with(pushed.drop_first(), sep));
        assert(pushed[0] == parts[0]);
        if parts.len() == 1 {
            assert(joined_with(pushed.drop_first(), sep) == entry);
            assert(joined_with(parts, sep) == parts[0]);
        } else {
            assert(joined_with(pushed.drop_first(), sep) == joined_with(parts.drop_first(), sep)
                + sep + entry);
            assert(parts[0] + sep + (joined_with(parts.drop_first(), sep) + sep + entry) =~= (
            parts[0] + sep + joined_with(parts.drop_first(), sep)) + sep + entry);
        }
    }
}

/// Join the strings in order, separated by `sep`.
pub fn join_with(parts: &Vec<String>, sep: &str) -> (r: String)
    ensures
        r@ == joined_with(parts.deep_view(), sep@),
{
    let ghost all: Seq<Seq<char>> = parts.deep_view();
    let mut r = String::new();
    let mut i: usize = 0;
    while i < parts.len()
        invariant
            0 <= i <= parts.len(),
            all == parts.deep_view(),
            all.len() == parts@.len(),
            r@ == joined_with(all.take(i as int), sep@),
        decreases parts.len() - i,
    {
        proof {
            assert(all.take(i + 1) =~= all.take(i as int).push(all[i as int]));
            lemma_joined_with_push(all.take(i as int), sep@, all[i as int]);
        }
        if i > 0 {
            r.append(sep);
        }
        let entry: &String = &parts[i];
        r.append(entry.as_str());
        proof {
            assert(entry@ == all[i as int]);
            if i == 0 {
                assert(r@ =~= all[0]);
            }
        }
        i = i + 1;
    }
    proof {
        assert(all.take(all.len() as int) =~= all);
    }
    r
}

} // verus!

//! The exports of an instantiated component: each exported function paired
//! with the function that frees what it returned, and the results of a
//! call checked against the room made for them.

use vstd::prelude::*;
use vstd::string::StringExecFns;

use crate::text::{chars_of, matches_at, occurs_at};
use crate::val::Val;

verus! {

/// The prefix that names the post-return function of an export.
pub open spec fn post_return_prefix() -> Seq<char> {
    "cabi_post_"@
}

/// The names of the exports, and which of them are functions.
pub open spec fn export_models(exports: Seq<(String, bool)>) -> Seq<(Seq<char>, bool)> {
    exports.map_values(|e: (String, bool)| (e.0@, e.1))
}

/// The names of the exported functions and of their post-return functions.
pub open spec fn pair_models(pairs: Seq<(String, Option<String>)>) -> Seq<(Seq<char>, Option<Seq<char>>)> {
    pairs.map_values(
        |p: (String, Option<String>)|
            (
                p.0@,
                match p.1 {
                    Some(s) => Some(s@),
                    None => None,
                },
            ),
    )
}

/// The export is a function that is not itself a post-return function.
pub open spec fn is_main_fn(export: (Seq<char>, bool)) -> bool {
    export.1 && !occurs_at(export.0, post_return_prefix(), 0)
}

/// `exports` hold a function named `post`.
pub open spec fn post_return_of_name(exports: Seq<(Seq<char>, bool)>, post: Seq<char>) -> bool {
    exists|j: int| 0 <= j < exports.len() && exports[j] == (post, true)
}

/// The name of the post-return function of `name`, where one is exported.
pub open spec fn post_return_of(exports: Seq<(Seq<char>, bool)>, name: Seq<char>) -> Option<Seq<char>> {
    let post = post_return_prefix() + name;
    if post_return_of_name(exports, post) {
        Some(post)
    } else {
        None
    }
}

/// The functions among the first exports of `seen` that are not
/// post-return functions, in order, each with its post-return function
/// among `all`.
pub open spec fn paired(seen: Seq<(Seq<char>, bool)>, all: Seq<(Seq<char>, bool)>) -> Seq<
    (Seq<char>, Option<Seq<char>>),
>
    decreases seen.len(),
{
    if seen.len() == 0 {
        Seq::empty()
    } else {
        let rest = paired(seen.drop_last(), all);
        let e = seen.last();
        if is_main_fn(e) {
            rest.push((e.0, post_return_of(all, e.0)))
        } else {
            rest
        }
    }
}

/// The exports that are functions and no post-return functions, in order.
pub open spec fn main_fns(exports: Seq<(Seq<char>, bool)>) -> Seq<(Seq<char>, bool)> {
    exports.filter(|e: (Seq<char>, bool)| is_main_fn(e))
}

/// Each entry of `paired(seen, all)` is a function among `seen` that is no
/// post-return function, with the post-return function of its name where
/// one stands anywhere among `all`, and none where none does.
proof fn lemma_paired_entries(seen: Seq<(Seq<char>, bool)>, all: Seq<(Seq<char>, bool)>)
    ensures
        paired(seen, all).len() == main_fns(seen).len(),
        forall|i: int|
            0 <= i < paired(seen, all).len() ==> #[trigger] paired(seen, all)[i].0 == main_fns(
                seen,
            )[i].0,
        forall|i: int|
            0 <= i < paired(seen, all).len() ==> {
                &&& exists|j: int|
                    0 <= j < seen.len() && seen[j] == (#[trigger] paired(seen, all)[i].0, true)
                        && !occurs_at(seen[j].0, post_return_prefix(), 0)
                &&& paired(seen, all)[i].1 == if exists|j: int|
                    0 <= j < all.len() && all[j] == (post_return_prefix() + paired(seen, all)[i].0, true) {
                    Some(post_return_prefix() + paired(seen, all)[i].0)
                } else {
                    None
                }
            },
    decreases seen.len(),
{
    if seen.len() > 0 {
        let prev = seen.drop_last();
        lemma_paired_entries(prev, all);
        reveal(Seq::filter);
        assert(main_fns(seen) == if is_main_fn(seen.last()) {
            main_fns(prev).push(seen.last())
        } else {
            main_fns(prev)
        });
        assert forall|i: int| 0 <= i < paired(seen, all).len() implies exists|j: int|
            0 <= j < seen.len() && seen[j] == (#[trigger] paired(seen, all)[i].0, true)
                && !occurs_at(seen[j].0, post_return_prefix(), 0) by {
            if i < paired(prev, all).len() {
                let j = choose|j: int|
                    0 <= j < prev.len() && prev[j] == (#[trigger] paired(prev, all)[i].0, true)
                        && !occurs_at(prev[j].0, post_return_prefix(), 0);
                assert(seen[j] == prev[j]);
            } else {
                assert(seen[seen.len() - 1] == seen.last());
            }
        }
    }
}

/// The entries name the exported functions that are no post-return
/// functions, each once and in their order; and each is paired with its
/// post-return function wherever that stands among the exports, before or
/// after it, and with none exactly when no function of that name is exported.
pub proof fn lemma_pair_exports_entries(exports: Seq<(Seq<char>, bool)>)
    ensures
        paired(exports, exports).len() == main_fns(exports).len(),
        forall|i: int|
            0 <= i < paired(exports, exports).len() ==> #[trigger] paired(exports, exports)[i].0
                == main_fns(exports)[i].0,
        forall|i: int|
            0 <= i < paired(exports, exports).len() ==> {
                &&& exists|j: int|
                    0 <= j < exports.len() && exports[j] == (
                        #[trigger] paired(exports, exports)[i].0,
                        true,
                    ) && !occurs_at(exports[j].0, post_return_prefix(), 0)
                &&& paired(exports, exports)[i].1 == if exists|j: int|
                    0 <= j < exports.len() && exports[j] == (
                        post_return_prefix() + paired(exports, exports)[i].0,
                        true,
                    ) {
                    Some(post_return_prefix() + paired(exports, exports)[i].0)
                } else {
                    None
                }
            },
{
    lemma_paired_entries(exports, exports);
}

/// The function exported as `post`, if there is one.
fn find_function(exports: &[(String, bool)], post: &String) -> (r: Option<String>)
    ensures
        match r {
            Some(s) => s@ == post@ && post_return_of_name(export_models(exports@), post@),
            None => !post_return_of_name(export_models(exports@), post@),
        },
{
    let mut j: usize = 0;
    while j < exports.len()
        invariant
            j <= exports@.len(),
            forall|k: int|
                0 <= k < j ==> #[trigger] export_models(exports@)[k] != (post@, true),
        decreases exports@.len() - j,
    {
        if exports[j].1 && exports[j].0 == *post {
            assert(export_models(exports@)[j as int] == (post@, true));
            return Some(post.clone());
        }
        j = j + 1;
    }
    None
}


/// Pairs each exported function with the exported function that frees what
/// it returned: the one named `cabi_post_` and its name. Exports that are
/// no functions, and the post-return functions themselves, get no entry.
pub fn pair_exports(exports: &[(String, bool)]) -> (r: Vec<(String, Option<String>)>)
    ensures
        pair_models(r@) == paired(export_models(exports@), export_models(exports@)),
{
    let ghost all = export_models(exports@);
    let prefix = chars_of("cabi_post_");
    let mut out: Vec<(String, Option<String>)> = Vec::new();
    let mut i: usize = 0;
    while i < exports.len()
        invariant
            i <= exports@.len(),
            all == export_models(exports@),
            prefix@ == post_return_prefix(),
            pair_models(out@) == paired(all.take(i as int), all),
        decreases exports@.len() - i,
    {
        let name = &exports[i].0;
        let name_chars = chars_of(name.as_str());
        assert(all.take(i + 1int).drop_last() =~= all.take(i as int));
        if exports[i].1 && !matches_at(name_chars.as_slice(), prefix.as_slice(), 0) {
            let mut post = String::from_str("cabi_post_");
            post.append(name.as_str());
            let found = find_function(exports, &post);
            out.push((name.clone(), found));
            assert(pair_models(out@) =~= pair_models(out@.drop_last()).push(
                (name@, post_return_of(all, name@)),
            ));
        }
        i = i + 1;
    }
    assert(all.take(exports@.len() as int) =~= all);
    out
}

/// The values a call returned do not fit the room made for them.
#[derive(Debug, Clone, Copy, PartialEq, Eq)]
pub struct ResultCountError {
    /// How many results the caller made room for.
    pub expected: usize,
    /// How many the function returned.
    pub returned: usize,
}

/// Moves the values a call returned into `results`, which must have room
/// for exactly as many; otherwise `results` stay as they were.
pub fn store_results(data: Vec<Val>, results: &mut Vec<Val>) -> (r: Result<(), ResultCountError>)
    ensures
        data@.len() == old(results)@.len() ==> r is Ok && final(results)@ == data@,
        data@.len() != old(results)@.len() ==> r == Err::<(), ResultCountError>(
            ResultCountError { expected: old(results)@.len() as usize, returned: data@.len() as usize },
        ) && final(results)@ == old(results)@,
{
    if data.len() != results.len() {
        return Err(ResultCountError { expected: results.len(), returned: data.len() });
    }
    *results = data;
    Ok(())
}

} // verus!

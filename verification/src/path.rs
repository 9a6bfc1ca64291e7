//! Directory paths as text, and the chain of ancestors of a directory.

use std::path::Path;
use vstd::prelude::*;

verus! {

/// The parent of the directory `dir` as the platform's path rules give it:
/// `dir` without its last component, or `None` where `dir` ends in a root
/// or is empty.
pub uninterp spec fn path_parent(dir: Seq<char>) -> Option<Seq<char>>;

/// The parent of a directory, or `None` for one that has none.
///
/// Wraps `std::path::Path::parent`. Trusted: the result is the named parent
/// of `dir`, and, being `dir` without its last component, it is strictly
/// shorter than `dir`.
#[verifier::external_body]
pub(crate) fn parent_dir<'a>(dir: &'a str) -> (r: Option<&'a str>)
    ensures
        match r {
            Some(p) => path_parent(dir@) == Some(p@) && p@.len() < dir@.len(),
            None => path_parent(dir@).is_none(),
        },
{
    Path::new(dir).parent().and_then(Path::to_str)
}

/// The parent that the ancestor walk steps to: the platform's parent of
/// `dir`, which is strictly shorter than `dir`.
pub open spec fn step_up(dir: Seq<char>) -> Option<Seq<char>> {
    match path_parent(dir) {
        Some(p) => if p.len() < dir.len() {
            Some(p)
        } else {
            None
        },
        None => None,
    }
}

/// The ancestor chain of `dir`, closest first: `dir` itself, its parent,
/// the parent of that, up to the directory that has no parent.
pub open spec fn ancestor_chain(dir: Seq<char>) -> Seq<Seq<char>>
    decreases dir.len(),
{
    match step_up(dir) {
        Some(p) => seq![dir] + ancestor_chain(p),
        None => seq![dir],
    }
}

/// The chain starts at the directory itself, and every later member is
/// strictly shorter than it, so the directory occurs in its chain once.
pub proof fn lemma_chain_shape(dir: Seq<char>)
    ensures
        ancestor_chain(dir).len() >= 1,
        ancestor_chain(dir)[0] == dir,
        forall|i: int|
            1 <= i < ancestor_chain(dir).len() ==> (#[trigger] ancestor_chain(dir)[i]).len()
                < dir.len(),
    decreases dir.len(),
{
    match step_up(dir) {
        Some(p) => {
            lemma_chain_shape(p);
            let rest = ancestor_chain(p);
            assert forall|i: int| 1 <= i < ancestor_chain(dir).len() implies (
            #[trigger] ancestor_chain(dir)[i]).len() < dir.len() by {
                assert(ancestor_chain(dir)[i] == rest[i - 1]);
                if i > 1 {
                    assert(rest[i - 1].len() < p.len());
                }
            }
        },
        None => {},
    }
}

/// The ancestors of `dir`, closest first, found by stepping to the parent
/// until there is none.
pub fn ancestors<'a>(dir: &'a str) -> (r: Vec<&'a str>)
    ensures
        r@.len() == ancestor_chain(dir@).len(),
        forall|i: int| 0 <= i < r@.len() ==> (#[trigger] r@[i])@ == ancestor_chain(dir@)[i],
{
    let mut out: Vec<&'a str> = Vec::new();
    let mut curr: Option<&'a str> = Some(dir);
    loop
        invariant
            match curr {
                Some(p) => out@.len() + ancestor_chain(p@).len() == ancestor_chain(dir@).len()
                    && (forall|i: int|
                    0 <= i < ancestor_chain(p@).len() ==> #[trigger] ancestor_chain(p@)[i]
                        == ancestor_chain(dir@)[out@.len() + i]),
                None => out@.len() == ancestor_chain(dir@).len(),
            },
            forall|i: int| 0 <= i < out@.len() ==> (#[trigger] out@[i])@ == ancestor_chain(dir@)[i],
        ensures
            curr.is_none(),
        decreases
            match curr {
                Some(p) => p@.len() + 1,
                None => 0,
            },
    {
        match curr {
            Some(p) => {
                let next = parent_dir(p);
                proof {
                    let c = ancestor_chain(p@);
                    assert(c[0] == p@);
                    match next {
                        Some(q) => {
                            assert(step_up(p@) == Some(q@));
                            assert forall|i: int|
                                0 <= i < ancestor_chain(q@).len() implies #[trigger] ancestor_chain(
                                q@,
                            )[i] == ancestor_chain(dir@)[out@.len() + 1 + i] by {
                                assert(c[i + 1] == ancestor_chain(q@)[i]);
                            }
                        },
                        None => {},
                    }
                }
                out.push(p);
                curr = next;
            },
            None => {
                break ;
            },
        }
    }
    out
}

} // verus!

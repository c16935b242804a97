//! Names for failure records: each terminal per-file failure gets a record
//! under the failed-cases directory, named collide-safely against the
//! records already there.
use crate::filename::rfind;
use crate::text::dec_str;
use vstd::prelude::*;

verus! {

/// No collide-safe record name was free below the ceiling.
#[derive(Debug, Clone, Copy, PartialEq, Eq, Structural)]
pub enum FailedCaseError {
    NoAvailableName,
}

impl FailedCaseError {
    /// The error's description.
    pub fn message(&self) -> (r: String)
        ensures
            r@ == "Could not find available symlink name"@,
    {
        String::from_str("Could not find available symlink name")
    }
}

/// The stem of a file name: the part before the last dot, unless that dot
/// leads the name; the whole name when there is no such dot.
pub open spec fn spec_stem(name: Seq<char>) -> Seq<char> {
    match rfind(name, '.') {
        None => name,
        Some(j) => if j == 0 {
            name
        } else {
            name.take(j)
        },
    }
}

/// The extension of a file name under the same rule; empty when there is
/// none.
pub open spec fn spec_ext(name: Seq<char>) -> Seq<char> {
    match rfind(name, '.') {
        None => Seq::empty(),
        Some(j) => if j == 0 {
            Seq::empty()
        } else {
            name.skip(j + 1)
        },
    }
}

/// The `k`th candidate record name: the name itself for `k == 0`, then
/// `stem-k` or `stem-k.ext`.
pub open spec fn spec_symlink_candidate(name: Seq<char>, k: int) -> Seq<char> {
    if k == 0 {
        name
    } else if spec_ext(name).len() == 0 {
        spec_stem(name) + seq!['-'] + dec_str(k)
    } else {
        spec_stem(name) + seq!['-'] + dec_str(k) + seq!['.'] + spec_ext(name)
    }
}

/// Whether some name in the directory reads `nm`.
pub open spec fn name_taken(existing: Seq<Seq<char>>, nm: Seq<char>) -> bool {
    exists|i: int| 0 <= i < existing.len() && existing[i] == nm
}

/// The first free candidate name from `k` on; `None` past the ceiling.
pub open spec fn spec_symlink_walk(existing: Seq<Seq<char>>, name: Seq<char>, k: int) -> Option<
    Seq<char>,
>
    decreases 10000 - k,
{
    if k >= 10000 {
        None
    } else if !name_taken(existing, spec_symlink_candidate(name, k)) {
        Some(spec_symlink_candidate(name, k))
    } else {
        spec_symlink_walk(existing, name, k + 1)
    }
}

/// The record name chosen for `name` against the directory's contents.
pub open spec fn spec_symlink_name(existing: Seq<Seq<char>>, name: Seq<char>) -> Option<
    Seq<char>,
> {
    spec_symlink_walk(existing, name, 0)
}

/// Whether `nm` occurs among the names of `existing`.
fn list_contains(existing: &Vec<String>, nm: &str) -> (r: bool)
    ensures
        r == name_taken(existing.deep_view(), nm@),
{
    let n = existing.len();
    let mut i: usize = 0;
    while i < n
        invariant
            0 <= i <= n,
            n == existing@.len(),
            forall|j: int| 0 <= j < i ==> existing.deep_view()[j] != nm@,
        decreases n - i,
    {
        if crate::text::string_eq_str(&existing[i], nm) {
            proof {
                assert(existing.deep_view()[i as int] == nm@);
            }
            return true;
        }
        i = i + 1;
    }
    false
}

/// Builds the `k`th candidate record name for `name`.
fn symlink_candidate(name: &str, k: u32) -> (r: String)
    requires
        k < 10000,
    ensures
        r@ == spec_symlink_candidate(name@, k as int),
{
    if k == 0 {
        return name.to_owned();
    }
    proof {
        reveal_strlit("-");
        reveal_strlit(".");
        assert(name@.skip(0) =~= name@);
    }
    let n = name.unicode_len();
    let dot = crate::filename::rfind_char_from(name, '.', 0);
    let (stem, ext): (String, String) = match dot {
        Some(j) if j > 0 => {
            let st = name.substring_char(0, j).to_owned();
            let ex = name.substring_char(j + 1, n).to_owned();
            proof {
                assert(name@.take(j as int) =~= name@.subrange(0, j as int));
                assert(name@.skip(j + 1) =~= name@.subrange(j + 1, n as int));
                assert(st@ == spec_stem(name@) && ex@ == spec_ext(name@));
            }
            (st, ex)
        },
        _ => {
            proof {
                assert(spec_ext(name@) =~= Seq::<char>::empty());
            }
            (name.to_owned(), String::new())
        },
    };
    let mut out = stem;
    out.append("-");
    crate::text::push_dec(&mut out, k as u64);
    if ext.unicode_len() > 0 {
        out.append(".");
        out.append(ext.as_str());
        proof {
            assert(out@ =~= spec_symlink_candidate(name@, k as int));
        }
        out
    } else {
        proof {
            assert(out@ =~= spec_symlink_candidate(name@, k as int));
        }
        out
    }
}

/// Picks a record name for `name` that collides with nothing in the
/// directory — `existing` lists the names already there: the name itself
/// when free, else `stem-k.ext` for the first free counter `k`.
pub fn find_available_symlink_name(existing: &Vec<String>, original_name: &str) -> (r: Result<
    String,
    FailedCaseError,
>)
    ensures
        match r {
            Ok(s) => spec_symlink_name(existing.deep_view(), original_name@) == Some(s@)
                && !name_taken(existing.deep_view(), s@),
            Err(_) => spec_symlink_name(existing.deep_view(), original_name@) is None,
        },
{
    let ghost ex = existing.deep_view();
    let mut k: u32 = 0;
    while k < 10000
        invariant
            0 <= k <= 10000,
            ex == existing.deep_view(),
            spec_symlink_walk(ex, original_name@, 0) == spec_symlink_walk(
                ex,
                original_name@,
                k as int,
            ),
        decreases 10000 - k,
    {
        let cand = symlink_candidate(original_name, k);
        if !list_contains(existing, cand.as_str()) {
            return Ok(cand);
        }
        k = k + 1;
    }
    Err(FailedCaseError::NoAvailableName)
}

} // verus!

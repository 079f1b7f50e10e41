//! Command-line switches.

use vstd::prelude::*;
use crate::text::{str_equal, starts_with};

verus! {

/// Whether the switch `k` is among `args`.
pub open spec fn has_flag_spec(args: Seq<String>, k: Seq<char>) -> bool {
    exists|i: int| 0 <= i < args.len() && (#[trigger] args[i])@ == k
}

/// Whether the switch `k` is among `args`.
pub fn has_flag(args: &Vec<String>, k: &str) -> (r: bool)
    ensures
        r == has_flag_spec(args@, k@),
{
    let mut i: usize = 0;
    while i < args.len()
        invariant
            i <= args@.len(),
            forall|j: int| 0 <= j < i ==> (#[trigger] args@[j])@ != k@,
        decreases args@.len() - i,
    {
        if str_equal(args[i].as_str(), k) {
            return true;
        }
        i = i + 1;
    }
    false
}

/// The icon export switch, alone or with `=directory`.
pub open spec fn export_switch() -> Seq<char> {
    "--export-icons"@
}

/// `a` is the export switch, alone or with `=directory` attached.
pub open spec fn is_export_arg(a: Seq<char>) -> bool {
    a == export_switch() || (export_switch().len() + 1 <= a.len() && a.take(
        (export_switch().len() + 1) as int,
    ) == export_switch() + "="@)
}

/// Index of the first export switch, or `args.len()`.
pub open spec fn export_index(args: Seq<String>) -> int
    decreases args.len(),
{
    if args.len() == 0 {
        0
    } else if is_export_arg(args[0]@) {
        0
    } else {
        1 + export_index(args.drop_first())
    }
}

/// Where icons are exported: `None` without the switch; `Some(Some(dir))` for
/// `--export-icons=dir`, or for `--export-icons dir` when `dir` is not itself a switch;
/// `Some(None)` for the switch without a directory (the program's directory is meant).
pub open spec fn export_dir_spec(args: Seq<String>) -> Option<Option<Seq<char>>> {
    let i = export_index(args);
    if i >= args.len() {
        None
    } else {
        let a = args[i]@;
        if a != export_switch() {
            Some(Some(a.skip((export_switch().len() + 1) as int)))
        } else if i + 1 < args.len() && !(2 <= args[i + 1]@.len() && args[i + 1]@.take(2) == "--"@) {
            Some(Some(args[i + 1]@))
        } else {
            Some(None)
        }
    }
}

proof fn lemma_export_index_at(args: Seq<String>, k: int)
    requires
        0 <= k <= args.len(),
        forall|j: int| 0 <= j < k ==> !is_export_arg((#[trigger] args[j])@),
        k == args.len() || is_export_arg(args[k]@),
    ensures
        export_index(args) == k,
    decreases k,
{
    if k > 0 {
        assert(forall|j: int| 0 <= j < k - 1 ==> #[trigger] args.drop_first()[j] == args[j + 1]);
        lemma_export_index_at(args.drop_first(), k - 1);
    }
}

/// The export directory requested on the command line, as described by `export_dir_spec`.
pub fn export_dir(args: &Vec<String>) -> (r: Option<Option<String>>)
    ensures
        match (r, export_dir_spec(args@)) {
            (None, None) => true,
            (Some(None), Some(None)) => true,
            (Some(Some(d)), Some(Some(v))) => d@ == v,
            _ => false,
        },
{
    proof {
        reveal_strlit("--export-icons");
        reveal_strlit("--export-icons=");
        reveal_strlit("--");
    }
    let n = args.len();
    let mut i: usize = 0;
    while i < n
        invariant
            n == args@.len(),
            i <= n,
            forall|j: int| 0 <= j < i ==> !is_export_arg((#[trigger] args@[j])@),
        decreases n - i,
    {
        proof {
            reveal_strlit("--export-icons");
            reveal_strlit("--export-icons=");
            reveal_strlit("--");
            reveal_strlit("=");
        }
        let a = args[i].as_str();
        let exact = str_equal(a, "--export-icons");
        let with_dir = starts_with(a, "--export-icons=");
        assert("--export-icons="@ =~= export_switch() + "="@);
        if exact || with_dir {
            proof {
                lemma_export_index_at(args@, i as int);
            }
            if !exact {
                let rest = a.substring_char(15, a.unicode_len());
                return Some(Some(String::from_str(rest)));
            }
            if i + 1 < n && !starts_with(args[i + 1].as_str(), "--") {
                return Some(Some(args[i + 1].clone()));
            }
            return Some(None);
        }
        i = i + 1;
    }
    proof {
        lemma_export_index_at(args@, n as int);
    }
    None
}

} // verus!

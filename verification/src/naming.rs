//! The default output file name.

use vstd::prelude::*;
use vstd::string::StringExecFns;

verus! {

/// The default output file name built around a timestamp.
pub open spec fn output_name_of(ts: Seq<char>) -> Seq<char> {
    "file_tree_"@ + ts + ".md"@
}

/// Relies on chrono's `Local::now` and `DateTime::format` for the current
/// local time rendered as `%Y-%m-%d_%H-%M-%S`.  Nothing is assumed of the
/// result: it depends on the clock.
#[verifier::external_body]
fn local_timestamp() -> (r: String) {
    chrono::Local::now().format("%Y-%m-%d_%H-%M-%S").to_string()
}

/// Wrap a timestamp in the default output file name.
pub fn output_name_for(ts: &str) -> (r: String)
    ensures
        r@ == output_name_of(ts@),
{
    let mut r = String::from_str("file_tree_");
    r.append(ts);
    r.append(".md");
    proof {
        assert(r@ =~= output_name_of(ts@));
    }
    r
}

/// The default output location when none is given: `file_tree_<ts>.md`
/// for the local time now.
pub fn default_output_name() -> (r: String)
    ensures
        exists|ts: Seq<char>| r@ == output_name_of(ts),
{
    let ts = local_timestamp();
    let r = output_name_for(ts.as_str());
    proof {
        assert(r@ == output_name_of(ts@));
    }
    r
}

} // verus!

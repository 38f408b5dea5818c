//! Naming and selection of fetched output files.
//!
//! Each fetch invocation owns a prefix derived from a millisecond timestamp,
//! so files of different invocations cannot be mistaken for one another, and
//! the file an invocation produced is selected from a directory listing by a
//! deterministic rule.

use vstd::prelude::*;
use crate::text::{
    dec_str, ext_of, extension_of, has_prefix, lemma_dec_digits, lemma_dec_injective,
    lemma_lex_total, lemma_lex_trans, lex_le, str_eq, str_lt, u64_to_dec,
};

verus! {

/// Why a single fetch invocation produced no usable file.
#[derive(Debug, Clone)]
pub enum FetchError {
    /// The external tool exited with a failure status; holds its stderr text.
    Failed { stderr: String },
    /// The tool reported success but no file with this invocation's prefix
    /// and an accepted audio extension appeared.
    ProducedNoFile,
}

/// The mathematical shape of a fetch error.
pub ghost enum FetchErrorView {
    Failed { stderr: Seq<char> },
    ProducedNoFile,
}

impl View for FetchError {
    type V = FetchErrorView;

    open spec fn view(&self) -> FetchErrorView {
        match self {
            FetchError::Failed { stderr } => FetchErrorView::Failed { stderr: stderr@ },
            FetchError::ProducedNoFile => FetchErrorView::ProducedNoFile,
        }
    }
}

/// The file-name prefix owned by the invocation stamped `stamp`.
pub open spec fn run_prefix_spec(stamp: u64) -> Seq<char> {
    "yt2media_"@ + dec_str(stamp as nat) + "_"@
}

/// Build the file-name prefix for one invocation.
pub fn output_prefix(stamp: u64) -> (r: String)
    ensures
        r@ == run_prefix_spec(stamp),
{
    let mut s = String::from_str("yt2media_");
    let digits = u64_to_dec(stamp);
    s.append(digits.as_str());
    s.append("_");
    s
}

/// The output template handed to the external tool: the invocation's prefix
/// followed by the tool's own title and extension placeholders.
pub fn output_template(stamp: u64) -> (r: String)
    ensures
        r@ == run_prefix_spec(stamp) + "%(title)s.%(ext)s"@,
{
    let mut s = output_prefix(stamp);
    s.append("%(title)s.%(ext)s");
    s
}

/// Prefixes of distinct invocations never collide: no file name laid down by
/// the invocation stamped `b` — its prefix followed by anything — begins
/// with the prefix of a different invocation stamped `a`.
pub proof fn lemma_distinct_prefixes(a: u64, b: u64, rest: Seq<char>)
    requires
        a != b,
    ensures
        !run_prefix_spec(a).is_prefix_of(run_prefix_spec(b) + rest),
{
    reveal_strlit("_");
    let head = "yt2media_"@;
    let base = head.len() as int;
    let pa = run_prefix_spec(a);
    let pb = run_prefix_spec(b);
    let da = dec_str(a as nat);
    let db = dec_str(b as nat);
    let la = da.len() as int;
    let lb = db.len() as int;
    lemma_dec_digits(a as nat);
    lemma_dec_digits(b as nat);
    if pa.is_prefix_of(pb + rest) {
        let whole = pb + rest;
        assert(pa.len() == base + la + 1);
        assert(pb.len() == base + lb + 1);
        assert(forall|i: int|
            0 <= i < pa.len() ==> pa[i] == #[trigger] whole.subrange(0, pa.len() as int)[i]);
        assert(forall|i: int| 0 <= i < pa.len() ==> pa[i] == whole[i]);
        if la == lb {
            if da == db {
                lemma_dec_injective(a as nat, b as nat);
            } else {
                if forall|k: int| 0 <= k < la ==> da[k] == #[trigger] db[k] {
                    assert(da =~= db);
                }
                let k = choose|k: int| 0 <= k < la && da[k] != db[k];
                assert(pa[base + k] == (head + da)[base + k]);
                assert((head + da)[base + k] == da[k]);
                assert(whole[base + k] == pb[base + k]);
                assert(pb[base + k] == (head + db)[base + k]);
                assert((head + db)[base + k] == db[k]);
            }
        } else if la < lb {
            assert(pa[base + la] == "_"@[0]);
            assert(pa[base + la] == '_');
            assert(whole[base + la] == pb[base + la]);
            assert(pb[base + la] == (head + db)[base + la]);
            assert((head + db)[base + la] == db[la]);
            assert(48 <= db[la] as int <= 57);
            assert('_' as int == 95);
        } else {
            assert(pa[base + lb] == (head + da)[base + lb]);
            assert((head + da)[base + lb] == da[lb]);
            assert(48 <= da[lb] as int <= 57);
            assert(whole[base + lb] == pb[base + lb]);
            assert(pb[base + lb] == "_"@[0]);
            reveal_strlit("_");
            assert(pb[base + lb] == '_');
            assert('_' as int == 95);
        }
    }
}

/// A leftover file of one invocation is never claimable by another: a name
/// laid down under stamp `b` fails the prefix test of any run stamped
/// differently, so repeated runs into one directory cannot mistake each
/// other's files for their own.
pub proof fn lemma_no_cross_run_claim(a: u64, b: u64, rest: Seq<char>)
    requires
        a != b,
    ensures
        !is_claimable(run_prefix_spec(b) + rest, run_prefix_spec(a)),
{
    lemma_distinct_prefixes(a, b, rest);
}

/// A file name with one of the two accepted audio extensions.
pub open spec fn is_audio_name(name: Seq<char>) -> bool {
    ext_of(name) == Some("mp3"@) || ext_of(name) == Some("m4a"@)
}

/// Whether a file name has one of the two accepted audio extensions.
pub fn has_audio_ext(name: &str) -> (r: bool)
    ensures
        r == is_audio_name(name@),
{
    match extension_of(name) {
        Some(e) => str_eq(e.as_str(), "mp3") || str_eq(e.as_str(), "m4a"),
        None => false,
    }
}

/// A directory entry that the invocation with prefix `prefix` may claim as
/// its output: it carries the prefix and an accepted audio extension.
pub open spec fn is_claimable(name: Seq<char>, prefix: Seq<char>) -> bool {
    prefix.is_prefix_of(name) && is_audio_name(name)
}

fn claimable(name: &str, prefix: &str) -> (r: bool)
    ensures
        r == is_claimable(name@, prefix@),
{
    has_prefix(name, prefix) && has_audio_ext(name)
}

/// Select, from a directory listing, the file the invocation with prefix
/// `prefix` produced: the lexicographically first claimable name, so that
/// the choice is deterministic whatever order the listing came in.
pub fn select_output(names: &Vec<String>, prefix: &String) -> (r: Option<String>)
    ensures
        match r {
            Some(m) => {
                &&& is_claimable(m@, prefix@)
                &&& exists|i: int| 0 <= i < names@.len() && #[trigger] names@[i]@ == m@
                &&& forall|i: int|
                    0 <= i < names@.len() && is_claimable(#[trigger] names@[i]@, prefix@)
                        ==> lex_le(m@, names@[i]@)
            },
            None => forall|i: int|
                0 <= i < names@.len() ==> !is_claimable(#[trigger] names@[i]@, prefix@),
        },
{
    let mut best: Option<String> = None;
    let mut j: usize = 0;
    while j < names.len()
        invariant
            j <= names@.len(),
            match best {
                Some(m) => {
                    &&& is_claimable(m@, prefix@)
                    &&& exists|i: int| 0 <= i < j && #[trigger] names@[i]@ == m@
                    &&& forall|i: int|
                        0 <= i < j && is_claimable(#[trigger] names@[i]@, prefix@)
                            ==> lex_le(m@, names@[i]@)
                },
                None => forall|i: int|
                    0 <= i < j ==> !is_claimable(#[trigger] names@[i]@, prefix@),
            },
        decreases names@.len() - j,
    {
        let name = &names[j];
        if claimable(name.as_str(), prefix.as_str()) {
            match &best {
                None => {
                    best = Some(name.clone());
                },
                Some(m) => {
                    if str_lt(name.as_str(), m.as_str()) {
                        proof {
                            let old_m = m@;
                            assert forall|i: int|
                                0 <= i < j && is_claimable(#[trigger] names@[i]@, prefix@)
                                    implies lex_le(name@, names@[i]@) by {
                                if old_m == names@[i]@ {
                                } else {
                                    lemma_lex_trans(name@, old_m, names@[i]@);
                                }
                            }
                        }
                        best = Some(name.clone());
                    } else {
                        proof {
                            lemma_lex_total(m@, name@);
                        }
                    }
                },
            }
        }
        j = j + 1;
    }
    best
}

/// Relies on chrono's `Utc::now` and `DateTime::timestamp_millis`: the wall
/// clock in milliseconds since the epoch.  Nothing is promised of the value,
/// which depends on the machine's clock.
#[verifier::external_body]
fn now_millis() -> i64 {
    chrono::Utc::now().timestamp_millis()
}

/// The stamp for the next fetch invocation: the clock reading when it has
/// moved past the last stamp, else one past the last.  Every stamp in a
/// chain is strictly larger than the one before it, so by
/// `lemma_distinct_prefixes` no two invocations of the chain can claim
/// each other's files, whatever the clock does.
pub fn next_stamp(last: u64) -> (r: u64)
    ensures
        last < u64::MAX ==> r > last,
        r >= last,
{
    let t = now_millis();
    let clock: u64 = if t < 0 {
        0
    } else {
        t as u64
    };
    if clock > last {
        clock
    } else if last < u64::MAX {
        last + 1
    } else {
        last
    }
}

} // verus!

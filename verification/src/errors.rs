use vstd::prelude::*;

use crate::write::WriteResponse;

verus! {

/// Declares `tonic::Status` so that it can stand inside `Error::Rpc`.
/// Relied on only as an opaque RPC-layer status carried through unchanged;
/// nothing in this crate reads or constructs one.
#[verifier::external_type_specification]
#[verifier::external_body]
pub struct ExStatus(tonic::Status);

/// Every way a single target-request can fail, as one closed sum type.
/// Exactly one variant is active per instance; `ClusterWriteError` is
/// produced only by aggregation, never by a single target call.
#[derive(Debug)]
pub enum Error {
    /// The server accepted the connection but rejected the request.
    Server(ServerError),

    /// The RPC layer itself reported an error, distinct from a
    /// server-side rejection.
    Rpc(tonic::Status),

    /// Establishing or re-establishing a connection to `addr` failed after
    /// reconnection attempts were exhausted; `source` describes the cause.
    Connect { addr: String, source: String },

    /// Client-side misuse: the request was issued on a call that has not
    /// started yet or has already finished.
    Client(String),

    /// Authentication was rejected; see the structured status.
    AuthFail(AuthFailStatus),

    /// A cluster write where at least one target failed.
    ClusterWriteError(ClusterWriteError),

    /// A cause not otherwise classified.
    Unknown(String),
}

/// The combined view of one fanned-out cluster write: the keys and summed
/// counts of the targets that succeeded, and one entry per failed target
/// with its keys and its original failure.
#[derive(Debug)]
pub struct ClusterWriteError {
    pub ok: (Vec<String>, WriteResponse),
    pub errors: Vec<(Vec<String>, Error)>,
}

/// One per-target result: the keys routed to that target, paired with its
/// outcome — a `WriteResponse` on success, an `Error` otherwise.
pub type TargetResult = (Vec<String>, Result<WriteResponse, Error>);

/// Sum of the `success` counts over the inputs that carried a `WriteResponse`.
pub open spec fn sum_success(rs: Seq<TargetResult>) -> int
    decreases rs.len(),
{
    if rs.len() == 0 {
        0
    } else {
        sum_success(rs.drop_last()) + match rs.last().1 {
            Ok(w) => w.success as int,
            Err(_) => 0int,
        }
    }
}

/// Sum of the `failed` counts over the inputs that carried a `WriteResponse`.
pub open spec fn sum_failed(rs: Seq<TargetResult>) -> int
    decreases rs.len(),
{
    if rs.len() == 0 {
        0
    } else {
        sum_failed(rs.drop_last()) + match rs.last().1 {
            Ok(w) => w.failed as int,
            Err(_) => 0int,
        }
    }
}

/// The keys of all succeeding inputs, flattened in input order.
pub open spec fn ok_keys(rs: Seq<TargetResult>) -> Seq<String>
    decreases rs.len(),
{
    if rs.len() == 0 {
        Seq::empty()
    } else {
        ok_keys(rs.drop_last()) + match rs.last().1 {
            Ok(_) => rs.last().0@,
            Err(_) => Seq::empty(),
        }
    }
}

/// One entry per failing input, in input order: its keys and its original
/// failure, unchanged.
pub open spec fn err_entries(rs: Seq<TargetResult>) -> Seq<(Vec<String>, Error)>
    decreases rs.len(),
{
    if rs.len() == 0 {
        Seq::empty()
    } else {
        err_entries(rs.drop_last()) + match rs.last().1 {
            Ok(_) => Seq::empty(),
            Err(e) => seq![(rs.last().0, e)],
        }
    }
}

/// The totals over any prefix are bounded by the totals over the whole
/// sequence.
proof fn lemma_sums_prefix(rs: Seq<TargetResult>, k: int)
    requires
        0 <= k <= rs.len(),
    ensures
        sum_success(rs.take(k)) <= sum_success(rs),
        sum_failed(rs.take(k)) <= sum_failed(rs),
    decreases rs.len() - k,
{
    if k == rs.len() {
        assert(rs.take(k) =~= rs);
    } else {
        assert(rs.take(k + 1).drop_last() =~= rs.take(k));
        assert(rs.take(k + 1).last() == rs[k]);
        lemma_sums_prefix(rs, k + 1);
    }
}

impl ClusterWriteError {
    /// Folds a sequence of per-target results into one combined view:
    /// succeeding targets contribute their keys and their counts to `ok`,
    /// each failing target contributes one `errors` entry, in input order,
    /// carrying its original failure verbatim.
    pub fn aggregate(results: Vec<TargetResult>) -> (r: ClusterWriteError)
        requires
            sum_success(results@) <= u32::MAX,
            sum_failed(results@) <= u32::MAX,
        ensures
            r.ok.0@ == ok_keys(results@),
            r.ok.1.success == sum_success(results@),
            r.ok.1.failed == sum_failed(results@),
            r.errors@ == err_entries(results@),
    {
        let mut results = results;
        let ghost all = results@;
        let ghost k: int = 0;
        let mut success_total: u32 = 0;
        let mut failed_total: u32 = 0;
        let mut ok_metrics: Vec<String> = Vec::new();
        let mut errors: Vec<(Vec<String>, Error)> = Vec::new();
        while results.len() > 0
            invariant
                0 <= k <= all.len(),
                results@ == all.skip(k),
                success_total == sum_success(all.take(k)),
                failed_total == sum_failed(all.take(k)),
                ok_metrics@ == ok_keys(all.take(k)),
                errors@ == err_entries(all.take(k)),
                sum_success(all) <= u32::MAX,
                sum_failed(all) <= u32::MAX,
            decreases results@.len(),
        {
            let (mut metrics, write_result) = results.remove(0);
            proof {
                assert(all.skip(k)[0] == all[k]);
                assert(results@ =~= all.skip(k + 1));
                assert(all.take(k + 1).drop_last() =~= all.take(k));
                assert(all.take(k + 1).last() == all[k]);
                lemma_sums_prefix(all, k + 1);
                k = k + 1;
            }
            match write_result {
                Ok(write_resp) => {
                    success_total = success_total + write_resp.success;
                    failed_total = failed_total + write_resp.failed;
                    ok_metrics.append(&mut metrics);
                }
                Err(e) => {
                    errors.push((metrics, e));
                    proof {
                        assert(errors@ =~= err_entries(all.take(k)));
                    }
                }
            }
        }
        proof {
            assert(all.take(k) =~= all);
        }
        ClusterWriteError {
            ok: (ok_metrics, WriteResponse::new(success_total, failed_total)),
            errors,
        }
    }

    pub fn all_ok(&self) -> (r: bool)
        ensures
            r == (self.errors@.len() == 0),
    {
        self.errors.is_empty()
    }
}

/// A server-reported rejection: numeric code plus human-readable message.
#[derive(Debug, Clone)]
pub struct ServerError {
    pub code: u32,
    pub msg: String,
}

/// A structured authentication failure: closed sub-code plus message.
#[derive(Debug, Clone)]
pub struct AuthFailStatus {
    pub code: AuthCode,
    pub msg: String,
}

/// The closed set of authentication sub-codes.
#[derive(Debug, Clone, PartialEq, Eq, Structural)]
pub enum AuthCode {
    Okay,

    InvalidTenantMeta,

    InvalidTokenMeta,
}

/// Law: aggregation produces no error entry exactly when every input
/// carried a `WriteResponse`; together with `aggregate`'s contract, `all_ok`
/// on the result is true iff no input failed.
pub proof fn lemma_all_ok_iff(rs: Seq<TargetResult>)
    ensures
        err_entries(rs).len() == 0 <==> (forall|i: int|
            0 <= i < rs.len() ==> rs[i].1 is Ok),
    decreases rs.len(),
{
    if rs.len() > 0 {
        lemma_all_ok_iff(rs.drop_last());
        assert(forall|i: int|
            0 <= i < rs.len() - 1 ==> rs.drop_last()[i] == rs[i]);
        if rs.last().1 is Ok {
            assert(err_entries(rs) =~= err_entries(rs.drop_last()));
            if forall|i: int| 0 <= i < rs.len() - 1 ==> rs[i].1 is Ok {
                assert(forall|i: int| 0 <= i < rs.len() ==> rs[i].1 is Ok);
            }
        } else {
            assert(err_entries(rs).len() == err_entries(rs.drop_last()).len() + 1);
            assert(rs[rs.len() - 1].1 is Err);
        }
    }
}

/// The subsequence of inputs that failed, in input order.
pub open spec fn failing_inputs(rs: Seq<TargetResult>) -> Seq<TargetResult> {
    rs.filter(|t: TargetResult| t.1 is Err)
}

/// The failing inputs themselves, in input order, each reduced to its keys
/// and its failure.
pub open spec fn failure_entries_of(rs: Seq<TargetResult>) -> Seq<(Vec<String>, Error)> {
    failing_inputs(rs).map_values(|t: TargetResult| (t.0, t.1->Err_0))
}

/// Law: the error entries are exactly the failing inputs — one entry per
/// failing input, in input order, carrying the original failure unchanged.
pub proof fn lemma_err_entries_are_failures(rs: Seq<TargetResult>)
    ensures
        err_entries(rs) == failure_entries_of(rs),
    decreases rs.len(),
{
    reveal(Seq::filter);
    if rs.len() == 0 {
        assert(failure_entries_of(rs) =~= err_entries(rs));
    } else {
        lemma_err_entries_are_failures(rs.drop_last());
        if rs.last().1 is Err {
            assert(failing_inputs(rs) == failing_inputs(rs.drop_last()).push(rs.last()));
            assert(failure_entries_of(rs) =~= failure_entries_of(rs.drop_last()).push(
                (rs.last().0, rs.last().1->Err_0),
            ));
            assert(err_entries(rs) =~= err_entries(rs.drop_last()).push(
                (rs.last().0, rs.last().1->Err_0),
            ));
        } else {
            assert(failing_inputs(rs) == failing_inputs(rs.drop_last()));
            assert(failure_entries_of(rs) =~= failure_entries_of(rs.drop_last()));
            assert(err_entries(rs) =~= err_entries(rs.drop_last()));
        }
    }
}

/// The keys of every input, flattened in input order.
pub open spec fn all_keys(rs: Seq<TargetResult>) -> Seq<String>
    decreases rs.len(),
{
    if rs.len() == 0 {
        Seq::empty()
    } else {
        all_keys(rs.drop_last()) + rs.last().0@
    }
}

/// The keys of a sequence of error entries, flattened in order.
pub open spec fn failed_keys(es: Seq<(Vec<String>, Error)>) -> Seq<String>
    decreases es.len(),
{
    if es.len() == 0 {
        Seq::empty()
    } else {
        failed_keys(es.drop_last()) + es.last().0@
    }
}

/// Law: the succeeding keys and the failing keys together partition the
/// keys of all inputs — as multisets, no key is lost and none is
/// duplicated by aggregation.
pub proof fn lemma_keys_partition(rs: Seq<TargetResult>)
    ensures
        ok_keys(rs).to_multiset().add(failed_keys(err_entries(rs)).to_multiset())
            == all_keys(rs).to_multiset(),
    decreases rs.len(),
{
    broadcast use vstd::seq_lib::group_to_multiset_ensures;
    broadcast use vstd::multiset::group_multiset_axioms;

    if rs.len() == 0 {
        assert(ok_keys(rs).to_multiset().add(failed_keys(err_entries(rs)).to_multiset())
            =~= all_keys(rs).to_multiset());
    } else {
        lemma_keys_partition(rs.drop_last());
        let dl = rs.drop_last();
        let last_keys = rs.last().0@;
        vstd::seq_lib::lemma_multiset_commutative(all_keys(dl), last_keys);
        assert(all_keys(rs).to_multiset() == all_keys(dl).to_multiset().add(
            last_keys.to_multiset(),
        ));
        if rs.last().1 is Ok {
            assert(err_entries(rs) =~= err_entries(dl));
            vstd::seq_lib::lemma_multiset_commutative(ok_keys(dl), last_keys);
            assert(ok_keys(rs).to_multiset().add(failed_keys(err_entries(rs)).to_multiset())
                =~= all_keys(rs).to_multiset());
        } else {
            assert(ok_keys(rs) =~= ok_keys(dl));
            let entry = (rs.last().0, rs.last().1->Err_0);
            assert(err_entries(rs) =~= err_entries(dl).push(entry));
            assert(err_entries(dl).push(entry).drop_last() =~= err_entries(dl));
            assert(failed_keys(err_entries(rs)) == failed_keys(err_entries(dl)) + last_keys);
            vstd::seq_lib::lemma_multiset_commutative(failed_keys(err_entries(dl)), last_keys);
            assert(ok_keys(rs).to_multiset().add(failed_keys(err_entries(rs)).to_multiset())
                =~= all_keys(rs).to_multiset());
        }
    }
}

/// Law: the fold is a homomorphism under concatenation — aggregating the
/// concatenation of two input sequences yields the concatenated key and
/// error sequences and the summed totals of aggregating each part.
pub proof fn lemma_aggregate_concat(a: Seq<TargetResult>, b: Seq<TargetResult>)
    ensures
        sum_success(a + b) == sum_success(a) + sum_success(b),
        sum_failed(a + b) == sum_failed(a) + sum_failed(b),
        ok_keys(a + b) == ok_keys(a) + ok_keys(b),
        err_entries(a + b) == err_entries(a) + err_entries(b),
    decreases b.len(),
{
    if b.len() == 0 {
        assert(a + b =~= a);
        assert(ok_keys(a) + ok_keys(b) =~= ok_keys(a));
        assert(err_entries(a) + err_entries(b) =~= err_entries(a));
    } else {
        lemma_aggregate_concat(a, b.drop_last());
        assert((a + b).drop_last() =~= a + b.drop_last());
        assert((a + b).last() == b.last());
        match b.last().1 {
            Ok(_) => {
                assert(ok_keys(a + b) =~= ok_keys(a) + ok_keys(b));
                assert(err_entries(a + b) =~= err_entries(a) + err_entries(b));
            },
            Err(_) => {
                assert(ok_keys(a + b) =~= ok_keys(a) + ok_keys(b));
                assert(err_entries(a + b) =~= err_entries(a) + err_entries(b));
            },
        }
    }
}

/// A list of error entries turned back into inputs: each entry becomes a
/// failing `TargetResult` carrying the same keys and the same failure.
pub open spec fn as_error_inputs(es: Seq<(Vec<String>, Error)>) -> Seq<TargetResult> {
    es.map_values(|p: (Vec<String>, Error)| (p.0, Result::<WriteResponse, Error>::Err(p.1)))
}

/// An aggregated result turned back into inputs: one all-success entry
/// fabricated from `ok`, followed by the error entries as failing inputs.
pub open spec fn reaggregate_inputs(agg: ClusterWriteError) -> Seq<TargetResult> {
    seq![(agg.ok.0, Result::<WriteResponse, Error>::Ok(agg.ok.1))] + as_error_inputs(agg.errors@)
}

/// Error entries fed back as inputs contribute nothing to the success side
/// and reproduce themselves as error entries.
proof fn lemma_error_inputs(es: Seq<(Vec<String>, Error)>)
    ensures
        sum_success(as_error_inputs(es)) == 0,
        sum_failed(as_error_inputs(es)) == 0,
        ok_keys(as_error_inputs(es)) == Seq::<String>::empty(),
        err_entries(as_error_inputs(es)) == es,
    decreases es.len(),
{
    let inputs = as_error_inputs(es);
    if es.len() > 0 {
        lemma_error_inputs(es.drop_last());
        assert(inputs.drop_last() =~= as_error_inputs(es.drop_last()));
        assert(inputs.last() == (es.last().0, Result::<WriteResponse, Error>::Err(es.last().1)));
        assert(ok_keys(inputs) =~= Seq::<String>::empty());
        assert(err_entries(inputs) =~= es);
    }
}

/// Law: the fold is idempotent under round-tripping — re-aggregating a
/// produced result, as one fabricated all-success entry for `ok` together
/// with the original error entries as failing inputs, reproduces the same
/// combined totals, keys and error entries as the original inputs gave.
pub proof fn lemma_aggregate_roundtrip(rs: Seq<TargetResult>, agg: ClusterWriteError)
    requires
        agg.ok.0@ == ok_keys(rs),
        agg.ok.1.success == sum_success(rs),
        agg.ok.1.failed == sum_failed(rs),
        agg.errors@ == err_entries(rs),
    ensures
        sum_success(reaggregate_inputs(agg)) == sum_success(rs),
        sum_failed(reaggregate_inputs(agg)) == sum_failed(rs),
        ok_keys(reaggregate_inputs(agg)) == ok_keys(rs),
        err_entries(reaggregate_inputs(agg)) == err_entries(rs),
{
    let head = seq![(agg.ok.0, Result::<WriteResponse, Error>::Ok(agg.ok.1))];
    lemma_aggregate_concat(head, as_error_inputs(agg.errors@));
    lemma_error_inputs(agg.errors@);
    assert(head.drop_last() =~= Seq::<TargetResult>::empty());
    assert(sum_success(Seq::<TargetResult>::empty()) == 0);
    assert(sum_failed(Seq::<TargetResult>::empty()) == 0);
    assert(head.last() == (agg.ok.0, Result::<WriteResponse, Error>::Ok(agg.ok.1)));
    assert(sum_success(head) == agg.ok.1.success);
    assert(sum_failed(head) == agg.ok.1.failed);
    assert(ok_keys(Seq::<TargetResult>::empty()) == Seq::<String>::empty());
    assert(err_entries(Seq::<TargetResult>::empty()) == Seq::<(Vec<String>, Error)>::empty());
    assert(ok_keys(head) =~= agg.ok.0@);
    assert(err_entries(head) =~= Seq::<(Vec<String>, Error)>::empty());
    assert(ok_keys(reaggregate_inputs(agg)) =~= ok_keys(rs));
    assert(err_entries(reaggregate_inputs(agg)) =~= err_entries(rs));
}

} // verus!

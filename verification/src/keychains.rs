use vstd::prelude::*;

use dji_log_parser::layout::auxiliary::Department;

use crate::text::{opt_view, str_equals};

verus! {

#[verifier::external_type_specification]
pub struct ExDepartment(Department);

/// The number that `u8::from` gives a department, as the crate's source writes it.
pub open spec fn spec_department_id(department: Department) -> u8 {
    match department {
        Department::SDK => 1,
        Department::DJIGO => 2,
        Department::DJIFly => 3,
        Department::AgriculturalMachinery => 4,
        Department::Terra => 5,
        Department::DJIGlasses => 6,
        Department::DJIPilot => 7,
        Department::GSPro => 8,
        Department::Unknown(n) => n,
    }
}

/// Calls `u8::from` on a `Department` of `dji_log_parser`; the contract states the numbers that
/// its source gives each department.
#[verifier::external_body]
fn department_id(department: Department) -> (r: u8)
    ensures
        r == spec_department_id(department),
{
    u8::from(department)
}

/// The departments that are tried, in this order, when the one that the log names is refused:
/// DJI Fly, DJI GO, DJI Pilot.
pub open spec fn spec_fallback_departments() -> Seq<u8> {
    seq![
        spec_department_id(Department::DJIFly),
        spec_department_id(Department::DJIGO),
        spec_department_id(Department::DJIPilot),
    ]
}

/// The numbers of the departments that are tried when the one that the log names is refused.
pub fn fallback_departments() -> (r: Vec<u8>)
    ensures
        r@ == spec_fallback_departments(),
{
    let mut departments: Vec<u8> = Vec::new();
    departments.push(department_id(Department::DJIFly));
    departments.push(department_id(Department::DJIGO));
    departments.push(department_id(Department::DJIPilot));
    proof {
        assert(departments@ =~= spec_fallback_departments());
    }
    departments
}

/// The message with which DJI's API refuses a request made with the wrong department.
pub open spec fn invalid_ciphertext_message() -> Seq<char> {
    "invalid ciphertext"@
}

/// Whether an error is DJI's API refusing the request with "invalid ciphertext";
/// `api_error_message` is the message of an API error, `None` for any other error.
pub fn is_invalid_ciphertext_error(api_error_message: Option<&str>) -> (r: bool)
    ensures
        r == (opt_view(api_error_message) == Some(invalid_ciphertext_message())),
{
    match api_error_message {
        Some(message) => str_equals(message, "invalid ciphertext"),
        None => false,
    }
}

/// What became of one attempt to fetch keychains.
#[derive(Debug, Clone, Copy, PartialEq, Eq, Structural)]
pub enum FetchOutcome {
    /// The request could not be built from the log.
    RequestFailed,
    /// The keychains came back.
    Fetched,
    /// DJI's API answered "invalid ciphertext" to a request that named `department`.
    InvalidCiphertext { department: u8 },
    /// The fetch failed in another way.
    OtherError,
}

/// What to do next.
#[derive(Debug, Clone, Copy, PartialEq, Eq, Structural)]
pub enum KeychainStep {
    /// Build a request that names `department` (`None`: the one that the log names) and fetch.
    Fetch { department: Option<u8> },
    /// Done: the keychains just fetched are the result; `retried_department` is the department
    /// of the retry that fetched them, if it was a retry.
    Succeed { retried_department: Option<u8> },
    /// Done: fail with the error of the last attempt.
    FailWithLast,
    /// Done: fail with the error of the first fetch.
    FailWithFirst,
}

/// The progress of fetching keychains, with retries under other departments.
pub struct KeychainFetch {
    custom_department: Option<u8>,
    fallbacks: Vec<u8>,
    retrying: bool,
    failed_department: u8,
    next_fallback: usize,
    tried_department: u8,
    finished: bool,
}

/// The state of a `KeychainFetch`.
pub ghost struct FetchState {
    /// The department that the user asked for, if any.
    pub custom_department: Option<u8>,
    /// The departments to retry with, in order.
    pub fallbacks: Seq<u8>,
    /// Whether the first fetch was refused and retries are under way.
    pub retrying: bool,
    /// The department of the refused first fetch.
    pub failed_department: u8,
    /// The index in `fallbacks` from which the next retry is looked for.
    pub next_fallback: nat,
    /// The department of the retry under way.
    pub tried_department: u8,
    /// Whether a final step was given.
    pub finished: bool,
}

impl View for KeychainFetch {
    type V = FetchState;

    closed spec fn view(&self) -> FetchState {
        FetchState {
            custom_department: self.custom_department,
            fallbacks: self.fallbacks@,
            retrying: self.retrying,
            failed_department: self.failed_department,
            next_fallback: self.next_fallback as nat,
            tried_department: self.tried_department,
            finished: self.finished,
        }
    }
}

/// The state before the first fetch.
pub open spec fn initial_state(custom_department: Option<u8>) -> FetchState {
    FetchState {
        custom_department,
        fallbacks: spec_fallback_departments(),
        retrying: false,
        failed_department: 0,
        next_fallback: 0,
        tried_department: 0,
        finished: false,
    }
}

/// Every state that the steps reach.
pub open spec fn wf_state(s: FetchState) -> bool {
    &&& s.fallbacks == spec_fallback_departments()
    &&& s.next_fallback <= s.fallbacks.len()
    &&& s.retrying ==> s.custom_department is None
}

/// The first index at or after `from` whose department is not `failed`, or the length.
pub open spec fn next_fallback_index(fallbacks: Seq<u8>, failed: u8, from: int) -> int
    decreases fallbacks.len() - from,
{
    if 0 <= from < fallbacks.len() && fallbacks[from] == failed {
        next_fallback_index(fallbacks, failed, from + 1)
    } else {
        from
    }
}

/// The state in which `s` is finished.
pub open spec fn finish(s: FetchState) -> FetchState {
    FetchState { finished: true, ..s }
}

/// The next retry from `s.next_fallback` on, skipping the refused department; failing with the
/// first error when none is left.
pub open spec fn advance(s: FetchState) -> (FetchState, KeychainStep) {
    let k = next_fallback_index(s.fallbacks, s.failed_department, s.next_fallback as int);
    if 0 <= k < s.fallbacks.len() {
        (
            FetchState { next_fallback: (k + 1) as nat, tried_department: s.fallbacks[k], ..s },
            KeychainStep::Fetch { department: Some(s.fallbacks[k]) },
        )
    } else {
        (finish(s), KeychainStep::FailWithFirst)
    }
}

/// The next state and step after `outcome` in state `s`. The first fetch succeeds or fails as
/// it comes, except that "invalid ciphertext", when no department was asked for, starts the
/// retries; a retry succeeds as it comes, moves on to the next department on "invalid
/// ciphertext", and fails with any other error.
pub open spec fn spec_next(s: FetchState, outcome: FetchOutcome) -> (FetchState, KeychainStep) {
    if !s.retrying {
        match outcome {
            FetchOutcome::Fetched => (
                finish(s),
                KeychainStep::Succeed { retried_department: None },
            ),
            FetchOutcome::InvalidCiphertext { department } => if s.custom_department is None {
                advance(
                    FetchState {
                        retrying: true,
                        failed_department: department,
                        next_fallback: 0,
                        ..s
                    },
                )
            } else {
                (finish(s), KeychainStep::FailWithLast)
            },
            _ => (finish(s), KeychainStep::FailWithLast),
        }
    } else {
        match outcome {
            FetchOutcome::Fetched => (
                finish(s),
                KeychainStep::Succeed { retried_department: Some(s.tried_department) },
            ),
            FetchOutcome::InvalidCiphertext { .. } => advance(s),
            _ => (finish(s), KeychainStep::FailWithLast),
        }
    }
}

impl KeychainFetch {
    /// Starts fetching: the first step fetches with `custom_department`, or with the department
    /// that the log names when it is `None`.
    pub fn start(custom_department: Option<u8>) -> (r: (KeychainFetch, KeychainStep))
        ensures
            r.0@ == initial_state(custom_department),
            r.0.wf(),
            r.1 == (KeychainStep::Fetch { department: custom_department }),
    {
        let fallbacks = fallback_departments();
        (
            KeychainFetch {
                custom_department,
                fallbacks,
                retrying: false,
                failed_department: 0,
                next_fallback: 0,
                tried_department: 0,
                finished: false,
            },
            KeychainStep::Fetch { department: custom_department },
        )
    }

    /// Whether the state is one that the steps reach.
    pub open spec fn wf(&self) -> bool {
        wf_state(self@)
    }

    /// The step that follows `outcome`, the outcome of the last fetch step.
    pub fn next(&mut self, outcome: FetchOutcome) -> (r: KeychainStep)
        requires
            old(self).wf(),
            !old(self)@.finished,
        ensures
            final(self).wf(),
            (final(self)@, r) == spec_next(old(self)@, outcome),
    {
        if !self.retrying {
            match outcome {
                FetchOutcome::Fetched => {
                    self.finished = true;
                    KeychainStep::Succeed { retried_department: None }
                },
                FetchOutcome::InvalidCiphertext { department } => {
                    if self.custom_department.is_none() {
                        self.retrying = true;
                        self.failed_department = department;
                        self.next_fallback = 0;
                        self.advance()
                    } else {
                        self.finished = true;
                        KeychainStep::FailWithLast
                    }
                },
                _ => {
                    self.finished = true;
                    KeychainStep::FailWithLast
                },
            }
        } else {
            match outcome {
                FetchOutcome::Fetched => {
                    self.finished = true;
                    KeychainStep::Succeed { retried_department: Some(self.tried_department) }
                },
                FetchOutcome::InvalidCiphertext { .. } => self.advance(),
                _ => {
                    self.finished = true;
                    KeychainStep::FailWithLast
                },
            }
        }
    }

    fn advance(&mut self) -> (r: KeychainStep)
        requires
            old(self).wf(),
        ensures
            final(self).wf(),
            (final(self)@, r) == advance(old(self)@),
    {
        let ghost s = self@;
        let mut k = self.next_fallback;
        while k < self.fallbacks.len() && self.fallbacks[k] == self.failed_department
            invariant
                self@ == s,
                wf_state(s),
                s.next_fallback <= k <= s.fallbacks.len(),
                next_fallback_index(s.fallbacks, s.failed_department, k as int)
                    == next_fallback_index(
                    s.fallbacks,
                    s.failed_department,
                    s.next_fallback as int,
                ),
            decreases s.fallbacks.len() - k,
        {
            k = k + 1;
        }
        if k < self.fallbacks.len() {
            let department = self.fallbacks[k];
            self.next_fallback = k + 1;
            self.tried_department = department;
            KeychainStep::Fetch { department: Some(department) }
        } else {
            self.finished = true;
            KeychainStep::FailWithFirst
        }
    }
}

} // verus!

verus! {

proof fn lemma_next_fallback_index(fallbacks: Seq<u8>, failed: u8, from: int)
    requires
        0 <= from <= fallbacks.len(),
    ensures
        from <= next_fallback_index(fallbacks, failed, from) <= fallbacks.len(),
        next_fallback_index(fallbacks, failed, from) < fallbacks.len() ==> fallbacks[next_fallback_index(
            fallbacks,
            failed,
            from,
        )] != failed,
        forall|k: int|
            from <= k < next_fallback_index(fallbacks, failed, from) ==> #[trigger] fallbacks[k]
                == failed,
    decreases fallbacks.len() - from,
{
    if from < fallbacks.len() && fallbacks[from] == failed {
        lemma_next_fallback_index(fallbacks, failed, from + 1);
    }
}

/// How many retries may still come after state `s`.
pub open spec fn pending_retries(s: FetchState) -> int {
    if s.finished {
        0
    } else if !s.retrying {
        s.fallbacks.len() as int
    } else {
        s.fallbacks.len() - s.next_fallback
    }
}

/// With a department given by the user, the first fetch is the only one: whatever comes of it
/// is final.
pub proof fn law_custom_department_is_not_retried(department: u8, outcome: FetchOutcome)
    ensures
        spec_next(initial_state(Some(department)), outcome).1 == if outcome
            == FetchOutcome::Fetched {
            KeychainStep::Succeed { retried_department: None }
        } else {
            KeychainStep::FailWithLast
        },
        spec_next(initial_state(Some(department)), outcome).0.finished,
{
}

/// A fetch that succeeds ends with success; an error other than "invalid ciphertext" ends with
/// that error.
pub proof fn law_outcome_passes_through(s: FetchState, outcome: FetchOutcome)
    requires
        wf_state(s),
        !s.finished,
    ensures
        outcome == FetchOutcome::Fetched ==> spec_next(s, outcome).1 is Succeed,
        outcome == FetchOutcome::OtherError || outcome == FetchOutcome::RequestFailed
            ==> spec_next(s, outcome).1 == KeychainStep::FailWithLast,
        spec_next(s, outcome).1 == KeychainStep::FailWithFirst ==> outcome is InvalidCiphertext,
{
}

/// Retries go through the fallback departments in order, each at most once, never with the
/// department that was refused; the steps keep the state well formed, and every step but a
/// fetch is final.
pub proof fn law_retries_follow_the_list(s: FetchState, outcome: FetchOutcome)
    requires
        wf_state(s),
        !s.finished,
    ensures
        wf_state(spec_next(s, outcome).0),
        !(spec_next(s, outcome).1 is Fetch) <==> spec_next(s, outcome).0.finished,
        s.retrying ==> spec_next(s, outcome).0.failed_department == s.failed_department,
        spec_next(s, outcome).1 matches KeychainStep::Fetch { department } ==> {
            let t = spec_next(s, outcome).0;
            &&& t.retrying
            &&& department == Some(t.tried_department)
            &&& t.tried_department != t.failed_department
            &&& 1 <= t.next_fallback <= t.fallbacks.len()
            &&& t.tried_department == t.fallbacks[t.next_fallback - 1]
            &&& s.retrying ==> t.next_fallback > s.next_fallback
        },
{
    let from = if s.retrying {
        s.next_fallback as int
    } else {
        0
    };
    let failed = match outcome {
        FetchOutcome::InvalidCiphertext { department } => if s.retrying {
            s.failed_department
        } else {
            department
        },
        _ => s.failed_department,
    };
    lemma_next_fallback_index(s.fallbacks, failed, from);
}

/// Each retry lowers the number of retries that may still come, so at most one fetch per
/// fallback department follows the first.
pub proof fn law_fetches_are_bounded(s: FetchState, outcome: FetchOutcome)
    requires
        wf_state(s),
        !s.finished,
    ensures
        spec_next(s, outcome).1 is Fetch ==> 0 <= pending_retries(spec_next(s, outcome).0)
            < pending_retries(s),
        pending_retries(initial_state(None)) == 3,
{
    law_retries_follow_the_list(s, outcome);
}

/// When every department left is refused too, the error of the first fetch is the result.
pub proof fn law_exhausted_retries_report_first_error(s: FetchState, department: u8)
    requires
        wf_state(s),
        !s.finished,
        s.retrying,
        forall|k: int| s.next_fallback <= k < s.fallbacks.len() ==> #[trigger] s.fallbacks[k]
            == s.failed_department,
    ensures
        spec_next(s, FetchOutcome::InvalidCiphertext { department }).1
            == KeychainStep::FailWithFirst,
{
    lemma_next_fallback_index(s.fallbacks, s.failed_department, s.next_fallback as int);
}

} // verus!

verus! {

/// On "invalid ciphertext" during the retries (or on the first fetch, when no department was
/// asked for), the next department fetched is the first one left in the list that is not the
/// refused one, and the run fails with the first error only when every department left is the
/// refused one: no department is passed over.
pub proof fn law_refusal_skips_only_the_refused_department(s: FetchState, department: u8)
    requires
        wf_state(s),
        !s.finished,
        s.retrying || s.custom_department is None,
    ensures
        ({
            let from = if s.retrying {
                s.next_fallback as int
            } else {
                0
            };
            let failed = if s.retrying {
                s.failed_department
            } else {
                department
            };
            let step = spec_next(s, FetchOutcome::InvalidCiphertext { department }).1;
            &&& step == KeychainStep::FailWithFirst <==> forall|k: int|
                from <= k < s.fallbacks.len() ==> #[trigger] s.fallbacks[k] == failed
            &&& step is Fetch || step == KeychainStep::FailWithFirst
            &&& forall|d: u8|
                step == (KeychainStep::Fetch { department: Some(d) }) ==> exists|k: int|
                    from <= k < s.fallbacks.len() && #[trigger] s.fallbacks[k] == d && d != failed
                        && forall|j: int| from <= j < k ==> s.fallbacks[j] == failed
        }),
{
    let from = if s.retrying {
        s.next_fallback as int
    } else {
        0
    };
    let failed = if s.retrying {
        s.failed_department
    } else {
        department
    };
    lemma_next_fallback_index(s.fallbacks, failed, from);
    let k = next_fallback_index(s.fallbacks, failed, from);
    if k < s.fallbacks.len() {
        assert(s.fallbacks[k] != failed);
    }
}

/// The steps that follow when every fetch is refused with "invalid ciphertext", for a department
/// refused on the first fetch.
pub open spec fn refusal_steps(s: FetchState, department: u8, n: nat) -> Seq<KeychainStep>
    decreases n,
{
    if n == 0 || s.finished {
        Seq::empty()
    } else {
        let (t, step) = spec_next(s, FetchOutcome::InvalidCiphertext { department });
        seq![step] + refusal_steps(t, department, (n - 1) as nat)
    }
}

/// When no department is asked for and every fetch is refused, every one of DJI Fly (3),
/// DJI GO (2) and DJI Pilot (7) other than the department that the log named is fetched, in that
/// order, and only then does the run fail with the first error.
pub proof fn law_every_other_department_is_tried(refused: u8)
    ensures
        refusal_steps(initial_state(None), refused, 5) == if refused == 3 {
            seq![
                KeychainStep::Fetch { department: Some(2u8) },
                KeychainStep::Fetch { department: Some(7u8) },
                KeychainStep::FailWithFirst,
            ]
        } else if refused == 2 {
            seq![
                KeychainStep::Fetch { department: Some(3u8) },
                KeychainStep::Fetch { department: Some(7u8) },
                KeychainStep::FailWithFirst,
            ]
        } else if refused == 7 {
            seq![
                KeychainStep::Fetch { department: Some(3u8) },
                KeychainStep::Fetch { department: Some(2u8) },
                KeychainStep::FailWithFirst,
            ]
        } else {
            seq![
                KeychainStep::Fetch { department: Some(3u8) },
                KeychainStep::Fetch { department: Some(2u8) },
                KeychainStep::Fetch { department: Some(7u8) },
                KeychainStep::FailWithFirst,
            ]
        },
{
    reveal_with_fuel(refusal_steps, 6);
    reveal_with_fuel(next_fallback_index, 4);
    let s0 = initial_state(None);
    assert(s0.fallbacks =~= seq![3u8, 2u8, 7u8]);
    let s1 = spec_next(s0, FetchOutcome::InvalidCiphertext { department: refused }).0;
    let s2 = spec_next(s1, FetchOutcome::InvalidCiphertext { department: refused }).0;
    let s3 = spec_next(s2, FetchOutcome::InvalidCiphertext { department: refused }).0;
    let s4 = spec_next(s3, FetchOutcome::InvalidCiphertext { department: refused }).0;
    assert(refusal_steps(initial_state(None), refused, 5) =~= seq![
        spec_next(s0, FetchOutcome::InvalidCiphertext { department: refused }).1,
    ] + refusal_steps(s1, refused, 4));
}

} // verus!

//! Cases: the investigations that alerts are triaged into.

use vstd::prelude::*;
use vstd::string::StringExecFns;
use crate::alert::{attached_in, update_alert_case_id, AlertModel, AlertSink};
use crate::json::{find_member, json_object_of, member_named, members_view, parse_object, JsonModel, JsonValue, Member};
use crate::text::{lowered, opt_view, spells, str_eq, to_chars, to_lower};

verus! {

/// How grave a case is.
#[derive(Clone, Copy, Debug, PartialEq, Eq, Structural)]
pub enum CaseSeverity {
    Low,
    Medium,
    High,
}

/// The severity that a word names, whatever its case; `Low` for any other word.
pub open spec fn case_severity_named(word: Seq<char>) -> CaseSeverity {
    if lowered(word) == "medium"@ {
        CaseSeverity::Medium
    } else if lowered(word) == "high"@ {
        CaseSeverity::High
    } else {
        CaseSeverity::Low
    }
}

/// The word for a severity.
pub open spec fn case_severity_word(s: CaseSeverity) -> Seq<char> {
    match s {
        CaseSeverity::Low => "Low"@,
        CaseSeverity::Medium => "Medium"@,
        CaseSeverity::High => "High"@,
    }
}

impl CaseSeverity {
    /// The severity that a word names, whatever its case; `Low` for any other word.
    pub fn from(s: String) -> (r: CaseSeverity)
        ensures
            r == case_severity_named(s@),
    {
        let word = to_lower(&to_chars(s.as_str()));
        if spells(&word, "medium") {
            CaseSeverity::Medium
        } else if spells(&word, "high") {
            CaseSeverity::High
        } else {
            CaseSeverity::Low
        }
    }

    /// The word for this severity.
    pub fn name(&self) -> (r: String)
        ensures
            r@ == case_severity_word(*self),
    {
        match self {
            CaseSeverity::Low => String::from_str("Low"),
            CaseSeverity::Medium => String::from_str("Medium"),
            CaseSeverity::High => String::from_str("High"),
        }
    }
}

/// Where a case stands.
#[derive(Clone, Copy, Debug, PartialEq, Eq, Structural)]
pub enum CaseStatus {
    InProgress,
    Closed,
    Hold,
}

/// The status that a word names, whatever its case; `InProgress` for any
/// other word.
pub open spec fn case_status_named(word: Seq<char>) -> CaseStatus {
    if lowered(word) == "closed"@ {
        CaseStatus::Closed
    } else if lowered(word) == "hold"@ {
        CaseStatus::Hold
    } else {
        CaseStatus::InProgress
    }
}

/// The word for a status.
pub open spec fn case_status_word(s: CaseStatus) -> Seq<char> {
    match s {
        CaseStatus::InProgress => "InProgress"@,
        CaseStatus::Closed => "Closed"@,
        CaseStatus::Hold => "Hold"@,
    }
}

impl CaseStatus {
    /// The status that a word names, whatever its case; `InProgress` for
    /// any other word.
    pub fn from(s: String) -> (r: CaseStatus)
        ensures
            r == case_status_named(s@),
    {
        let word = to_lower(&to_chars(s.as_str()));
        if spells(&word, "closed") {
            CaseStatus::Closed
        } else if spells(&word, "hold") {
            CaseStatus::Hold
        } else {
            CaseStatus::InProgress
        }
    }

    /// The word for this status.
    pub fn name(&self) -> (r: String)
        ensures
            r@ == case_status_word(*self),
    {
        match self {
            CaseStatus::InProgress => String::from_str("InProgress"),
            CaseStatus::Closed => String::from_str("Closed"),
            CaseStatus::Hold => String::from_str("Hold"),
        }
    }
}

/// Something observed in a case: its kind and its value.
#[derive(Debug)]
pub struct Observable {
    pub observable_type: String,
    pub value: String,
}

/// An `Observable` in contracts: its kind and its value.
pub type ObservableModel = (Seq<char>, Seq<char>);

impl View for Observable {
    type V = ObservableModel;

    open spec fn view(&self) -> ObservableModel {
        (self.observable_type@, self.value@)
    }
}

impl Observable {
    /// A copy of the observable.
    pub fn clone(&self) -> (r: Observable)
        ensures
            r@ == self@,
    {
        Observable { observable_type: self.observable_type.clone(), value: self.value.clone() }
    }
}

/// The observables behind a list of observables.
pub open spec fn observable_models(v: Seq<Observable>) -> Seq<ObservableModel> {
    Seq::new(v.len(), |i: int| v[i]@)
}

/// An investigation of one account.
#[derive(Debug)]
pub struct Case {
    pub id: String,
    pub account_id: String,
    pub title: String,
    pub description: String,
    pub severity: String,
    pub status: String,
    pub category: String,
    pub analyst_assigned: String,
    pub observables: Vec<Observable>,
    pub created_at: String,
    pub updated_at: String,
}

/// A `Case` in contracts.
pub struct CaseModel {
    pub id: Seq<char>,
    pub account_id: Seq<char>,
    pub title: Seq<char>,
    pub description: Seq<char>,
    pub severity: Seq<char>,
    pub status: Seq<char>,
    pub category: Seq<char>,
    pub analyst_assigned: Seq<char>,
    pub observables: Seq<ObservableModel>,
    pub created_at: Seq<char>,
    pub updated_at: Seq<char>,
}

impl View for Case {
    type V = CaseModel;

    open spec fn view(&self) -> CaseModel {
        CaseModel {
            id: self.id@,
            account_id: self.account_id@,
            title: self.title@,
            description: self.description@,
            severity: self.severity@,
            status: self.status@,
            category: self.category@,
            analyst_assigned: self.analyst_assigned@,
            observables: observable_models(self.observables@),
            created_at: self.created_at@,
            updated_at: self.updated_at@,
        }
    }
}

/// Why a case request was turned down.
#[derive(Debug)]
pub enum CaseError {
    DatabaseError(String),
    ValidationError(String),
    SerializationError(String),
}

/// A `CaseError` in contracts.
pub enum CaseFailure {
    DatabaseError(Seq<char>),
    ValidationError(Seq<char>),
    SerializationError(Seq<char>),
}

impl View for CaseError {
    type V = CaseFailure;

    open spec fn view(&self) -> CaseFailure {
        match self {
            CaseError::DatabaseError(m) => CaseFailure::DatabaseError(m@),
            CaseError::ValidationError(m) => CaseFailure::ValidationError(m@),
            CaseError::SerializationError(m) => CaseFailure::SerializationError(m@),
        }
    }
}

/// The sentence that describes a failure.
pub open spec fn case_failure_text(e: CaseFailure) -> Seq<char> {
    match e {
        CaseFailure::DatabaseError(m) => "Database error: "@ + m,
        CaseFailure::ValidationError(m) => "Validation error: "@ + m,
        CaseFailure::SerializationError(m) => "Serialization error: "@ + m,
    }
}

impl CaseError {
    /// The sentence that describes this failure.
    pub fn message(&self) -> (r: String)
        ensures
            r@ == case_failure_text(self@),
    {
        match self {
            CaseError::DatabaseError(m) => String::from_str("Database error: ").concat(m.as_str()),
            CaseError::ValidationError(m) => String::from_str("Validation error: ").concat(
                m.as_str(),
            ),
            CaseError::SerializationError(m) => String::from_str("Serialization error: ").concat(
                m.as_str(),
            ),
        }
    }
}

/// A case as it is opened: a new investigation of low severity, in
/// progress, with nothing observed, and no account or analyst yet.
pub open spec fn blank_case(id: Seq<char>, now: Seq<char>) -> CaseModel {
    CaseModel {
        id: id,
        account_id: Seq::empty(),
        title: "New Investigation"@,
        description: "New security investigation case"@,
        severity: "Low"@,
        status: "InProgress"@,
        category: "Security Investigation"@,
        analyst_assigned: Seq::empty(),
        observables: Seq::empty(),
        created_at: now,
        updated_at: now,
    }
}

/// What is wrong with a case, if anything: it must name its account and an analyst.
pub open spec fn case_fault(c: CaseModel) -> Option<CaseFailure> {
    if c.account_id.len() == 0 {
        Some(CaseFailure::ValidationError("Account ID cannot be empty"@))
    } else if c.analyst_assigned.len() == 0 {
        Some(CaseFailure::ValidationError("Analyst must be assigned"@))
    } else {
        None
    }
}

/// What opening a case for an account gives: the blank case for that
/// account with no analyst assigned, or a refusal where no account is named.
pub open spec fn opened(account: Seq<char>, id: Seq<char>, now: Seq<char>) -> Result<
    CaseModel,
    CaseFailure,
> {
    let c = CaseModel {
        account_id: account,
        analyst_assigned: "Unassigned"@,
        ..blank_case(id, now)
    };
    match case_fault(c) {
        Some(f) => Err(f),
        None => Ok(c),
    }
}

fn clone_observables(v: &Vec<Observable>) -> (r: Vec<Observable>)
    ensures
        observable_models(r@) == observable_models(v@),
{
    let mut out: Vec<Observable> = Vec::new();
    let mut i: usize = 0;
    while i < v.len()
        invariant
            i <= v.len(),
            observable_models(out@) == observable_models(v@).take(i as int),
        decreases v.len() - i,
    {
        out.push(v[i].clone());
        assert(observable_models(v@).take(i as int + 1) == observable_models(v@).take(
            i as int,
        ).push(v@[i as int]@));
        i += 1;
    }
    out
}

impl Case {
    /// The blank case under the given identifier, opened at the given time.
    pub fn blank(id: String, now: String) -> (c: Case)
        ensures
            c@ == blank_case(id@, now@),
    {
        let c = Case {
            id,
            account_id: String::new(),
            title: String::from_str("New Investigation"),
            description: String::from_str("New security investigation case"),
            severity: String::from_str("Low"),
            status: String::from_str("InProgress"),
            category: String::from_str("Security Investigation"),
            analyst_assigned: String::new(),
            observables: Vec::new(),
            created_at: now.clone(),
            updated_at: now,
        };
        assert(observable_models(c.observables@) == Seq::<ObservableModel>::empty());
        c
    }

    /// Checks that the case names its account and an analyst.
    pub fn validate(&self) -> (r: Result<(), CaseError>)
        ensures
            match r {
                Ok(_) => case_fault(self@) is None,
                Err(e) => case_fault(self@) == Some(e@),
            },
    {
        if self.account_id.as_str().is_empty() {
            return Err(CaseError::ValidationError(String::from_str("Account ID cannot be empty")));
        }
        if self.analyst_assigned.as_str().is_empty() {
            return Err(CaseError::ValidationError(String::from_str("Analyst must be assigned")));
        }
        Ok(())
    }

    /// A copy of the case.
    pub fn clone(&self) -> (r: Case)
        ensures
            r@ == self@,
    {
        Case {
            id: self.id.clone(),
            account_id: self.account_id.clone(),
            title: self.title.clone(),
            description: self.description.clone(),
            severity: self.severity.clone(),
            status: self.status.clone(),
            category: self.category.clone(),
            analyst_assigned: self.analyst_assigned.clone(),
            observables: clone_observables(&self.observables),
            created_at: self.created_at.clone(),
            updated_at: self.updated_at.clone(),
        }
    }
}

impl Default for Case {
    /// The blank case under a fresh identifier, opened now.
    fn default() -> (c: Case)
        ensures
            c@ == blank_case(c.id@, c.created_at@),
    {
        Case::blank(crate::stamp::fresh_id(), crate::stamp::now_rfc3339())
    }
}

/// The cases behind a list of cases.
pub open spec fn case_models(v: Seq<Case>) -> Seq<CaseModel> {
    Seq::new(v.len(), |i: int| v[i]@)
}

/// Some case has this identifier.
pub open spec fn case_known(s: Seq<CaseModel>, id: Seq<char>) -> bool {
    exists|i: int| 0 <= i < s.len() && (#[trigger] s[i]).id == id
}

/// The cases are in order: no identifier occurs twice, and every case names
/// its account and an analyst.
pub open spec fn cases_in_order(s: Seq<CaseModel>) -> bool {
    &&& forall|i: int, j: int|
        0 <= i < s.len() && 0 <= j < s.len() && i != j ==> (#[trigger] s[i]).id != (#[trigger] s[j]).id
    &&& forall|i: int| 0 <= i < s.len() ==> case_fault(#[trigger] s[i]) is None
}

/// The first case with the given identifier.
pub open spec fn case_with(s: Seq<CaseModel>, id: Seq<char>) -> Option<CaseModel>
    decreases s.len(),
{
    if s.len() == 0 {
        None
    } else if s[0].id == id {
        Some(s[0])
    } else {
        case_with(s.skip(1), id)
    }
}

/// The cases of one account, in the order in which they were filed.
pub open spec fn cases_of(s: Seq<CaseModel>, account: Seq<char>) -> Seq<CaseModel>
    decreases s.len(),
{
    if s.len() == 0 {
        Seq::<CaseModel>::empty()
    } else if s.last().account_id == account {
        cases_of(s.drop_last(), account).push(s.last())
    } else {
        cases_of(s.drop_last(), account)
    }
}

/// The cases without those with the given identifier.
pub open spec fn without_case(s: Seq<CaseModel>, id: Seq<char>) -> Seq<CaseModel>
    decreases s.len(),
{
    if s.len() == 0 {
        Seq::<CaseModel>::empty()
    } else if s.last().id == id {
        without_case(s.drop_last(), id)
    } else {
        without_case(s.drop_last(), id).push(s.last())
    }
}

/// A case on file brought up to date from a submitted one: everything but
/// the identifier, the account and the time of creation is taken over, and
/// the time of the update is the given one.
pub open spec fn rewritten(stored: CaseModel, c: CaseModel, now: Seq<char>) -> CaseModel {
    CaseModel {
        id: stored.id,
        account_id: stored.account_id,
        created_at: stored.created_at,
        updated_at: now,
        ..c
    }
}

/// The cases with every one that has the identifier of `c` brought up to
/// date from it.
pub open spec fn rewritten_in(s: Seq<CaseModel>, c: CaseModel, now: Seq<char>) -> Seq<CaseModel> {
    Seq::new(
        s.len(),
        |i: int|
            if s[i].id == c.id {
                rewritten(s[i], c, now)
            } else {
                s[i]
            },
    )
}

/// What filing a case does to the cases: a faulty case is refused, one
/// whose identifier is in use is refused, and any other goes to the end.
pub open spec fn filed(s: Seq<CaseModel>, c: CaseModel) -> Result<Seq<CaseModel>, CaseFailure> {
    match case_fault(c) {
        Some(fault) => Err(fault),
        None => if case_known(s, c.id) {
            Err(CaseFailure::DatabaseError("Case identifier already in use"@))
        } else {
            Ok(s.push(c))
        },
    }
}

/// Every case that is left after cases were taken out was there before, so
/// that cases in order stay in order.
proof fn lemma_without_case_in_order(s: Seq<CaseModel>, id: Seq<char>)
    ensures
        forall|k: int|
            0 <= k < without_case(s, id).len() ==> exists|j: int|
                0 <= j < s.len() && s[j] == #[trigger] without_case(s, id)[k],
        cases_in_order(s) ==> cases_in_order(without_case(s, id)),
    decreases s.len(),
{
    if s.len() > 0 {
        let init = s.drop_last();
        let kept = without_case(init, id);
        lemma_without_case_in_order(init, id);
        assert forall|k: int| 0 <= k < without_case(s, id).len() implies exists|j: int|
            0 <= j < s.len() && s[j] == #[trigger] without_case(s, id)[k] by {
            if k < kept.len() {
                let j = choose|j: int| 0 <= j < init.len() && init[j] == kept[k];
                assert(s[j] == kept[k]);
            } else {
                assert(s[s.len() - 1] == s.last());
            }
        }
        if cases_in_order(s) {
            assert forall|i: int| 0 <= i < init.len() implies init[i] == s[i] by {
            }
            assert(cases_in_order(init)) by {
                assert forall|i: int, j: int|
                    0 <= i < init.len() && 0 <= j < init.len() && i != j implies (
                #[trigger] init[i]).id != (#[trigger] init[j]).id by {
                    assert(init[i] == s[i] && init[j] == s[j]);
                }
                assert forall|i: int| 0 <= i < init.len() implies case_fault(
                    #[trigger] init[i],
                ) is None by {
                    assert(init[i] == s[i]);
                }
            }
            assert forall|k: int| 0 <= k < kept.len() implies (#[trigger] kept[k]).id
                != s.last().id by {
                let j = choose|j: int| 0 <= j < init.len() && init[j] == kept[k];
                assert(s[j] == kept[k]);
                assert(s[s.len() - 1] == s.last());
            }
            assert(case_fault(s[s.len() - 1]) is None);
        }
    }
}

/// The cases on file.
pub struct CaseBook {
    cases: Vec<Case>,
}

impl View for CaseBook {
    type V = Seq<CaseModel>;

    closed spec fn view(&self) -> Seq<CaseModel> {
        case_models(self.cases@)
    }
}

impl CaseBook {
    /// The cases on file are in order.
    pub open spec fn wf(&self) -> bool {
        cases_in_order(self@)
    }

    /// No case on file.
    pub fn new() -> (b: CaseBook)
        ensures
            b@ == Seq::<CaseModel>::empty(),
            b.wf(),
    {
        CaseBook { cases: Vec::new() }
    }

    /// How many cases are on file.
    pub fn len(&self) -> (n: usize)
        ensures
            n == self@.len(),
    {
        self.cases.len()
    }

    /// The case at a position, in the order in which the cases were filed.
    pub fn case_at(&self, i: usize) -> (r: &Case)
        requires
            i < self@.len(),
        ensures
            r@ == self@[i as int],
    {
        &self.cases[i]
    }

    /// Whether some case has this identifier.
    pub fn knows(&self, id: &str) -> (r: bool)
        ensures
            r == case_known(self@, id@),
    {
        let mut i: usize = 0;
        while i < self.cases.len()
            invariant
                i <= self.cases.len(),
                forall|k: int| 0 <= k < i ==> (#[trigger] self@[k]).id != id@,
            decreases self.cases.len() - i,
        {
            if str_eq(self.cases[i].id.as_str(), id) {
                assert(self@[i as int].id == id@);
                return true;
            }
            i += 1;
        }
        false
    }

    /// Files a case as it is given. A faulty case is refused, and so is one
    /// whose identifier is in use.
    pub fn load(&mut self, case: Case) -> (r: Result<(), CaseError>)
        requires
            old(self).wf(),
        ensures
            final(self).wf(),
            match r {
                Ok(_) => filed(old(self)@, case@) == Ok::<Seq<CaseModel>, CaseFailure>(
                    final(self)@,
                ),
                Err(e) => filed(old(self)@, case@) == Err::<Seq<CaseModel>, CaseFailure>(e@)
                    && final(self)@ == old(self)@,
            },
    {
        match case.validate() {
            Err(e) => {
                return Err(e);
            },
            Ok(_) => {},
        }
        if self.knows(case.id.as_str()) {
            return Err(
                CaseError::DatabaseError(String::from_str("Case identifier already in use")),
            );
        }
        let ghost before = self@;
        let ghost added = case@;
        self.cases.push(case);
        proof {
            assert(self@ =~= before.push(added));
            assert forall|i: int, j: int|
                0 <= i < self@.len() && 0 <= j < self@.len() && i != j implies (
            #[trigger] self@[i]).id != (#[trigger] self@[j]).id by {
                if i < before.len() {
                    assert(self@[i] == before[i]);
                }
                if j < before.len() {
                    assert(self@[j] == before[j]);
                }
            }
            assert forall|i: int| 0 <= i < self@.len() implies case_fault(
                #[trigger] self@[i],
            ) is None by {
                if i < before.len() {
                    assert(self@[i] == before[i]);
                }
            }
        }
        Ok(())
    }

    /// Brings every case on file that has the identifier of `case` up to
    /// date from it, which passed its check.
    fn rewrite(&mut self, case: &Case, now: &String)
        requires
            old(self).wf(),
            case_fault(case@) is None,
        ensures
            final(self).wf(),
            final(self)@ == rewritten_in(old(self)@, case@, now@),
    {
        let ghost s = self@;
        let mut i: usize = 0;
        while i < self.cases.len()
            invariant
                i <= self.cases.len(),
                self.cases@.len() == s.len(),
                forall|k: int|
                    0 <= k < i ==> (#[trigger] self.cases@[k])@ == rewritten_in(s, case@, now@)[k],
                forall|k: int| i <= k < s.len() ==> (#[trigger] self.cases@[k])@ == s[k],
            decreases self.cases.len() - i,
        {
            if str_eq(self.cases[i].id.as_str(), case.id.as_str()) {
                let mut fresh = case.clone();
                fresh.id = self.cases[i].id.clone();
                fresh.account_id = self.cases[i].account_id.clone();
                fresh.created_at = self.cases[i].created_at.clone();
                fresh.updated_at = now.clone();
                self.cases.set(i, fresh);
            }
            i += 1;
        }
        proof {
            let t = rewritten_in(s, case@, now@);
            assert(self@ =~= t);
            assert forall|k: int| 0 <= k < t.len() implies (#[trigger] t[k]).id == s[k].id
                && case_fault(t[k]) is None by {
                assert(case_fault(s[k]) is None);
            }
        }
    }
}

/// What opening a case for an account does to the cases: the opened case
/// goes to the end, or nothing changes where no account is named or the
/// identifier is in use.
pub open spec fn case_created(
    s: Seq<CaseModel>,
    account: Seq<char>,
    id: Seq<char>,
    now: Seq<char>,
) -> Result<Seq<CaseModel>, CaseFailure> {
    match opened(account, id, now) {
        Err(fault) => Err(fault),
        Ok(c) => filed(s, c),
    }
}

/// Opens a case for an account under the given identifier at the given time
/// and files it.
pub fn create_case_with(book: &mut CaseBook, account_id: &str, id: String, now: String) -> (r:
    Result<Case, CaseError>)
    requires
        old(book).wf(),
    ensures
        final(book).wf(),
        match r {
            Ok(c) => opened(account_id@, id@, now@) == Ok::<CaseModel, CaseFailure>(c@)
                && case_created(old(book)@, account_id@, id@, now@) == Ok::<
                Seq<CaseModel>,
                CaseFailure,
            >(final(book)@),
            Err(e) => case_created(old(book)@, account_id@, id@, now@) == Err::<
                Seq<CaseModel>,
                CaseFailure,
            >(e@) && final(book)@ == old(book)@,
        },
{
    proof {
        reveal_strlit("Unassigned");
    }
    let mut c = Case::blank(id, now);
    c.account_id = String::from_str(account_id);
    c.analyst_assigned = String::from_str("Unassigned");
    let copy = c.clone();
    match book.load(c) {
        Err(e) => Err(e),
        Ok(_) => Ok(copy),
    }
}

/// Opens a case for an account under a fresh identifier, now, and files
/// it. A case without an account is refused.
pub fn create_case(book: &mut CaseBook, account_id: &str) -> (r: Result<Case, CaseError>)
    requires
        old(book).wf(),
    ensures
        final(book).wf(),
        match r {
            Ok(c) => opened(account_id@, c.id@, c.created_at@) == Ok::<CaseModel, CaseFailure>(
                c@,
            ) && case_created(old(book)@, account_id@, c.id@, c.created_at@) == Ok::<
                Seq<CaseModel>,
                CaseFailure,
            >(final(book)@),
            Err(e) => final(book)@ == old(book)@ && exists|id: Seq<char>, now: Seq<char>| #[trigger]
                case_created(old(book)@, account_id@, id, now) == Err::<
                    Seq<CaseModel>,
                    CaseFailure,
                >(e@),
        },
        account_id@.len() == 0 ==> (r matches Err(e) && e@ == CaseFailure::ValidationError(
            "Account ID cannot be empty"@,
        )),
{
    proof {
        reveal_strlit("Unassigned");
    }
    create_case_with(book, account_id, crate::stamp::fresh_id(), crate::stamp::now_rfc3339())
}

/// The first case on file with the given identifier.
pub fn get_case(book: &CaseBook, case_id: &str) -> (r: Option<Case>)
    ensures
        match r {
            Some(c) => case_with(book@, case_id@) == Some(c@),
            None => case_with(book@, case_id@) is None,
        },
{
    let ghost s = book@;
    let mut i: usize = 0;
    assert(s.skip(0) == s);
    while i < book.cases.len()
        invariant
            i <= book.cases.len(),
            s == book@,
            s.len() == book.cases@.len(),
            case_with(s, case_id@) == case_with(s.skip(i as int), case_id@),
        decreases book.cases.len() - i,
    {
        if str_eq(book.cases[i].id.as_str(), case_id) {
            return Some(book.cases[i].clone());
        }
        assert(s.skip(i as int).skip(1) == s.skip(i as int + 1));
        i += 1;
    }
    None
}

/// The cases of one account, in the order in which they were filed.
pub fn get_cases_by_account(book: &CaseBook, account_id: &str) -> (r: Vec<Case>)
    ensures
        case_models(r@) == cases_of(book@, account_id@),
{
    let ghost s = book@;
    let mut found: Vec<Case> = Vec::new();
    let mut i: usize = 0;
    while i < book.cases.len()
        invariant
            i <= book.cases.len(),
            s == book@,
            s.len() == book.cases@.len(),
            case_models(found@) == cases_of(s.take(i as int), account_id@),
        decreases book.cases.len() - i,
    {
        assert(s.take(i as int + 1).drop_last() == s.take(i as int));
        if str_eq(book.cases[i].account_id.as_str(), account_id) {
            let copy = book.cases[i].clone();
            let ghost before = case_models(found@);
            found.push(copy);
            assert(case_models(found@) =~= before.push(s[i as int]));
        }
        i += 1;
    }
    assert(s.take(book.cases.len() as int) == s);
    found
}

/// Takes the case with the given identifier off the file and tells
/// whether there was one.
pub fn delete_case(book: &mut CaseBook, case_id: &str) -> (r: bool)
    requires
        old(book).wf(),
    ensures
        final(book).wf(),
        r == case_known(old(book)@, case_id@),
        final(book)@ == without_case(old(book)@, case_id@),
{
    let ghost s = book@;
    let mut kept: Vec<Case> = Vec::new();
    let mut found = false;
    let mut i: usize = 0;
    while i < book.cases.len()
        invariant
            i <= book.cases.len(),
            book@ == s,
            s.len() == book.cases@.len(),
            case_models(kept@) == without_case(s.take(i as int), case_id@),
            found == exists|k: int| 0 <= k < i && (#[trigger] s[k]).id == case_id@,
        decreases book.cases.len() - i,
    {
        assert(s.take(i as int + 1).drop_last() == s.take(i as int));
        assert(s[i as int] == book.cases@[i as int]@);
        if str_eq(book.cases[i].id.as_str(), case_id) {
            found = true;
        } else {
            let copy = book.cases[i].clone();
            let ghost before = case_models(kept@);
            kept.push(copy);
            assert(case_models(kept@) =~= before.push(s[i as int]));
        }
        i += 1;
    }
    assert(s.take(book.cases.len() as int) == s);
    proof {
        lemma_without_case_in_order(s, case_id@);
    }
    book.cases = kept;
    found
}

/// The observables without those equal to `o` in kind and value.
pub open spec fn without_observable(s: Seq<ObservableModel>, o: ObservableModel) -> Seq<
    ObservableModel,
>
    decreases s.len(),
{
    if s.len() == 0 {
        Seq::<ObservableModel>::empty()
    } else if s.last() == o {
        without_observable(s.drop_last(), o)
    } else {
        without_observable(s.drop_last(), o).push(s.last())
    }
}

fn observables_without(all: &Vec<Observable>, observable: &Observable) -> (kept: Vec<Observable>)
    ensures
        observable_models(kept@) == without_observable(observable_models(all@), observable@),
{
    let ghost s = observable_models(all@);
    let mut kept: Vec<Observable> = Vec::new();
    let mut i: usize = 0;
    while i < all.len()
        invariant
            i <= all.len(),
            s == observable_models(all@),
            observable_models(kept@) == without_observable(s.take(i as int), observable@),
        decreases all.len() - i,
    {
        assert(s.take(i as int + 1).drop_last() == s.take(i as int));
        let same = str_eq(all[i].observable_type.as_str(), observable.observable_type.as_str())
            && str_eq(all[i].value.as_str(), observable.value.as_str());
        if !same {
            let copy = all[i].clone();
            let ghost before = observable_models(kept@);
            kept.push(copy);
            assert(observable_models(kept@) =~= before.push(s[i as int]));
        }
        i += 1;
    }
    assert(s.take(all.len() as int) == s);
    kept
}

/// The alert that an observable names, given what the JSON parser made of
/// its value: an observable of kind `alert` whose value is a JSON object
/// with a string `alert_id` names that alert.
pub open spec fn alert_named_from(o: ObservableModel, parsed: Result<Seq<Member>, Seq<char>>) -> Option<
    Seq<char>,
> {
    if o.0 != "alert"@ {
        None
    } else {
        match parsed {
            Ok(members) => match member_named(members, "alert_id"@) {
                Some(JsonModel::Text(id)) => Some(id),
                _ => None,
            },
            Err(_) => None,
        }
    }
}

/// The alert that an observable names.
pub open spec fn alert_named(o: ObservableModel) -> Option<Seq<char>> {
    alert_named_from(o, json_object_of(o.1))
}

/// The alert that an observable names, given what the JSON parser made of
/// its value.
pub fn alert_of_observable(observable: &Observable, parsed: &Result<Vec<(String, JsonValue)>, String>) -> (r:
    Option<String>)
    ensures
        opt_view(r) == alert_named_from(
            observable@,
            match parsed {
                Ok(members) => Ok(members_view(members@)),
                Err(m) => Err(m@),
            },
        ),
{
    if !str_eq(observable.observable_type.as_str(), "alert") {
        return None;
    }
    match parsed {
        Ok(members) => match find_member(members, "alert_id") {
            Some(JsonValue::Text(id)) => Some(id.clone()),
            _ => None,
        },
        Err(_) => None,
    }
}

/// The alerts with each alert that one of the observables names attached to
/// the case, taking the observables first to last. A named alert with an
/// empty identifier, or one the sink does not know, changes nothing.
pub open spec fn attached_all(
    alerts: Seq<AlertModel>,
    observables: Seq<ObservableModel>,
    case: Seq<char>,
) -> Seq<AlertModel>
    decreases observables.len(),
{
    if observables.len() == 0 {
        alerts
    } else {
        let before = attached_all(alerts, observables.drop_last(), case);
        match alert_named(observables.last()) {
            Some(id) => if id.len() > 0 {
                attached_in(before, id, case)
            } else {
                before
            },
            None => before,
        }
    }
}

/// What bringing a case up to date does to the cases on file and to the
/// alerts: a faulty case is refused; otherwise the case on file with its
/// identifier is rewritten from it, and every alert that one of its
/// observables names is attached to it. A case that is not on file changes
/// no case.
pub open spec fn case_updated(
    s: Seq<CaseModel>,
    alerts: Seq<AlertModel>,
    c: CaseModel,
    now: Seq<char>,
) -> Result<(Seq<CaseModel>, Seq<AlertModel>), CaseFailure> {
    match case_fault(c) {
        Some(fault) => Err(fault),
        None => Ok((rewritten_in(s, c, now), attached_all(alerts, c.observables, c.id))),
    }
}

/// What adding an observable to the case with the given identifier does: a
/// case that is not on file is reported; otherwise the case is brought up
/// to date with the observable behind its others.
pub open spec fn observable_added(
    s: Seq<CaseModel>,
    alerts: Seq<AlertModel>,
    id: Seq<char>,
    o: ObservableModel,
    now: Seq<char>,
) -> Result<(Seq<CaseModel>, Seq<AlertModel>), CaseFailure> {
    match case_with(s, id) {
        None => Err(CaseFailure::ValidationError("Case not found"@)),
        Some(c) => case_updated(
            s,
            alerts,
            CaseModel { observables: c.observables.push(o), ..c },
            now,
        ),
    }
}

/// What deleting an observable from the case with the given identifier
/// does: a case that is not on file is reported; otherwise the case is
/// brought up to date without the observables equal to the given one in
/// kind and value, the others in their order.
pub open spec fn observable_deleted(
    s: Seq<CaseModel>,
    alerts: Seq<AlertModel>,
    id: Seq<char>,
    o: ObservableModel,
    now: Seq<char>,
) -> Result<(Seq<CaseModel>, Seq<AlertModel>), CaseFailure> {
    match case_with(s, id) {
        None => Err(CaseFailure::ValidationError("Case not found"@)),
        Some(c) => case_updated(
            s,
            alerts,
            CaseModel { observables: without_observable(c.observables, o), ..c },
            now,
        ),
    }
}

/// Whether an outcome is the one that a rule for the cases and alerts gives.
pub open spec fn came_out(
    expected: Result<(Seq<CaseModel>, Seq<AlertModel>), CaseFailure>,
    r: Result<(), CaseFailure>,
    before: (Seq<CaseModel>, Seq<AlertModel>),
    after: (Seq<CaseModel>, Seq<AlertModel>),
) -> bool {
    match r {
        Ok(_) => expected == Ok::<(Seq<CaseModel>, Seq<AlertModel>), CaseFailure>(after),
        Err(e) => expected == Err::<(Seq<CaseModel>, Seq<AlertModel>), CaseFailure>(e)
            && after == before,
    }
}

/// A case request's outcome in contracts.
pub open spec fn outcome_view(r: Result<(), CaseError>) -> Result<(), CaseFailure> {
    match r {
        Ok(_) => Ok(()),
        Err(e) => Err(e@),
    }
}

/// A case that is on file is found under its identifier, and the case found
/// under an identifier has it.
proof fn lemma_case_with(s: Seq<CaseModel>, id: Seq<char>)
    ensures
        case_known(s, id) <==> case_with(s, id) is Some,
        case_with(s, id) matches Some(c) ==> c.id == id && exists|j: int|
            0 <= j < s.len() && s[j] == c,
    decreases s.len(),
{
    if s.len() > 0 {
        let rest = s.skip(1);
        lemma_case_with(rest, id);
        if s[0].id == id {
        } else {
            if case_known(s, id) {
                let i = choose|i: int| 0 <= i < s.len() && (#[trigger] s[i]).id == id;
                assert(rest[i - 1] == s[i]);
            }
            if case_known(rest, id) {
                let i = choose|i: int| 0 <= i < rest.len() && (#[trigger] rest[i]).id == id;
                assert(s[i + 1] == rest[i]);
            }
            if case_with(rest, id) is Some {
                let c = case_with(rest, id)->Some_0;
                let j = choose|j: int| 0 <= j < rest.len() && rest[j] == c;
                assert(s[j + 1] == c);
            }
        }
    }
}

/// Deleting an observable from a case on file changes that case alone: it
/// loses the observables equal to the given one, keeps the others in their
/// order and is marked as updated; every other case stays as it is.
pub proof fn lemma_observable_deleted_from_one_case(
    s: Seq<CaseModel>,
    alerts: Seq<AlertModel>,
    id: Seq<char>,
    o: ObservableModel,
    now: Seq<char>,
)
    requires
        cases_in_order(s),
        case_known(s, id),
    ensures
        observable_deleted(s, alerts, id, o, now) matches Ok(after) && after.0.len() == s.len()
            && forall|k: int|
            0 <= k < s.len() ==> #[trigger] after.0[k] == if s[k].id == id {
                CaseModel {
                    observables: without_observable(s[k].observables, o),
                    updated_at: now,
                    ..s[k]
                }
            } else {
                s[k]
            },
{
    lemma_case_with(s, id);
    let c = case_with(s, id)->Some_0;
    let j = choose|j: int| 0 <= j < s.len() && s[j] == c;
    assert(case_fault(s[j]) is None);
    let after = observable_deleted(s, alerts, id, o, now)->Ok_0;
    assert forall|k: int| 0 <= k < s.len() implies #[trigger] after.0[k] == if s[k].id == id {
        CaseModel { observables: without_observable(s[k].observables, o), updated_at: now, ..s[k] }
    } else {
        s[k]
    } by {
        if s[k].id == id {
            assert(k == j);
        }
    }
}

/// Adding an observable to a case on file changes that case alone: it gets
/// the observable behind its others and is marked as updated; every other
/// case stays as it is.
pub proof fn lemma_observable_added_to_one_case(
    s: Seq<CaseModel>,
    alerts: Seq<AlertModel>,
    id: Seq<char>,
    o: ObservableModel,
    now: Seq<char>,
)
    requires
        cases_in_order(s),
        case_known(s, id),
    ensures
        observable_added(s, alerts, id, o, now) matches Ok(after) && after.0.len() == s.len()
            && forall|k: int|
            0 <= k < s.len() ==> #[trigger] after.0[k] == if s[k].id == id {
                CaseModel { observables: s[k].observables.push(o), updated_at: now, ..s[k] }
            } else {
                s[k]
            },
{
    lemma_case_with(s, id);
    let c = case_with(s, id)->Some_0;
    let j = choose|j: int| 0 <= j < s.len() && s[j] == c;
    assert(case_fault(s[j]) is None);
    let after = observable_added(s, alerts, id, o, now)->Ok_0;
    assert forall|k: int| 0 <= k < s.len() implies #[trigger] after.0[k] == if s[k].id == id {
        CaseModel { observables: s[k].observables.push(o), updated_at: now, ..s[k] }
    } else {
        s[k]
    } by {
        if s[k].id == id {
            assert(k == j);
        }
    }
}

/// Attaches every alert that an observable of the case names to the case.
fn attach_alerts(case: &Case, alerts: &mut AlertSink)
    requires
        old(alerts).wf(),
    ensures
        final(alerts).wf(),
        final(alerts)@ == attached_all(old(alerts)@, case@.observables, case.id@),
{
    let ghost all = observable_models(case.observables@);
    let ghost start = alerts@;
    let mut i: usize = 0;
    while i < case.observables.len()
        invariant
            i <= case.observables.len(),
            alerts.wf(),
            all == observable_models(case.observables@),
            alerts@ == attached_all(start, all.take(i as int), case.id@),
        decreases case.observables.len() - i,
    {
        assert(all.take(i as int + 1).drop_last() == all.take(i as int));
        let observable = &case.observables[i];
        let parsed = parse_object(observable.value.as_str());
        match alert_of_observable(observable, &parsed) {
            Some(id) => {
                let _ = update_alert_case_id(alerts, id.as_str(), case.id.as_str());
            },
            None => {},
        }
        i += 1;
    }
    assert(all.take(case.observables.len() as int) == all);
}

/// Brings a case up to date at the given time: the case is checked, the
/// case on file with its identifier is rewritten from it, and every alert
/// that one of its observables names is attached to it.
pub fn update_case_at(book: &mut CaseBook, alerts: &mut AlertSink, case: &Case, now: String) -> (r:
    Result<(), CaseError>)
    requires
        old(book).wf(),
        old(alerts).wf(),
    ensures
        final(book).wf(),
        final(alerts).wf(),
        came_out(
            case_updated(old(book)@, old(alerts)@, case@, now@),
            outcome_view(r),
            (old(book)@, old(alerts)@),
            (final(book)@, final(alerts)@),
        ),
{
    match case.validate() {
        Err(e) => {
            return Err(e);
        },
        Ok(_) => {},
    }
    book.rewrite(case, &now);
    attach_alerts(case, alerts);
    Ok(())
}

/// Brings a case up to date and marks it as updated now.
pub fn update_case(book: &mut CaseBook, alerts: &mut AlertSink, case: &Case) -> (r: Result<
    (),
    CaseError,
>)
    requires
        old(book).wf(),
        old(alerts).wf(),
    ensures
        final(book).wf(),
        final(alerts).wf(),
        exists|now: Seq<char>|
            came_out(
                #[trigger] case_updated(old(book)@, old(alerts)@, case@, now),
                outcome_view(r),
                (old(book)@, old(alerts)@),
                (final(book)@, final(alerts)@),
            ),
        r is Err <==> case_fault(case@) is Some,
{
    let now = crate::stamp::now_rfc3339();
    update_case_at(book, alerts, case, now)
}

/// Adds an observable to the case with the given identifier at the given
/// time. A case that is not on file is reported and nothing changes.
pub fn add_observable_at(
    book: &mut CaseBook,
    alerts: &mut AlertSink,
    case_id: &str,
    observable: Observable,
    now: String,
) -> (r: Result<(), CaseError>)
    requires
        old(book).wf(),
        old(alerts).wf(),
    ensures
        final(book).wf(),
        final(alerts).wf(),
        came_out(
            observable_added(old(book)@, old(alerts)@, case_id@, observable@, now@),
            outcome_view(r),
            (old(book)@, old(alerts)@),
            (final(book)@, final(alerts)@),
        ),
        r is Ok <==> case_known(old(book)@, case_id@),
{
    proof {
        lemma_case_with(book@, case_id@);
    }
    let mut case = match get_case(book, case_id) {
        Some(case) => case,
        None => {
            return Err(CaseError::ValidationError(String::from_str("Case not found")));
        },
    };
    let ghost before = observable_models(case.observables@);
    let ghost added = observable@;
    case.observables.push(observable);
    assert(observable_models(case.observables@) =~= before.push(added));
    update_case_at(book, alerts, &case, now)
}

/// Adds an observable to the case with the given identifier and marks the
/// case as updated now. A case that is not on file is reported and nothing
/// changes.
pub fn add_observable(
    book: &mut CaseBook,
    alerts: &mut AlertSink,
    case_id: &str,
    observable: Observable,
) -> (r: Result<(), CaseError>)
    requires
        old(book).wf(),
        old(alerts).wf(),
    ensures
        final(book).wf(),
        final(alerts).wf(),
        exists|now: Seq<char>|
            came_out(
                #[trigger] observable_added(old(book)@, old(alerts)@, case_id@, observable@, now),
                outcome_view(r),
                (old(book)@, old(alerts)@),
                (final(book)@, final(alerts)@),
            ),
        r is Ok <==> case_known(old(book)@, case_id@),
{
    let now = crate::stamp::now_rfc3339();
    add_observable_at(book, alerts, case_id, observable, now)
}

/// Takes every observable equal to the given one in kind and value out of
/// the case with the given identifier, at the given time. A case that is
/// not on file is reported and nothing changes.
pub fn delete_observable_at(
    book: &mut CaseBook,
    alerts: &mut AlertSink,
    case_id: &str,
    observable: Observable,
    now: String,
) -> (r: Result<(), CaseError>)
    requires
        old(book).wf(),
        old(alerts).wf(),
    ensures
        final(book).wf(),
        final(alerts).wf(),
        came_out(
            observable_deleted(old(book)@, old(alerts)@, case_id@, observable@, now@),
            outcome_view(r),
            (old(book)@, old(alerts)@),
            (final(book)@, final(alerts)@),
        ),
        r is Ok <==> case_known(old(book)@, case_id@),
{
    proof {
        lemma_case_with(book@, case_id@);
    }
    let mut case = match get_case(book, case_id) {
        Some(case) => case,
        None => {
            return Err(CaseError::ValidationError(String::from_str("Case not found")));
        },
    };
    case.observables = observables_without(&case.observables, &observable);
    update_case_at(book, alerts, &case, now)
}

/// Takes every observable equal to the given one in kind and value out of
/// the case with the given identifier and marks the case as updated now. A
/// case that is not on file is reported and nothing changes.
pub fn delete_observable(
    book: &mut CaseBook,
    alerts: &mut AlertSink,
    case_id: &str,
    observable: Observable,
) -> (r: Result<(), CaseError>)
    requires
        old(book).wf(),
        old(alerts).wf(),
    ensures
        final(book).wf(),
        final(alerts).wf(),
        exists|now: Seq<char>|
            came_out(
                #[trigger] observable_deleted(old(book)@, old(alerts)@, case_id@, observable@, now),
                outcome_view(r),
                (old(book)@, old(alerts)@),
                (final(book)@, final(alerts)@),
            ),
        r is Ok <==> case_known(old(book)@, case_id@),
{
    let now = crate::stamp::now_rfc3339();
    delete_observable_at(book, alerts, case_id, observable, now)
}

} // verus!

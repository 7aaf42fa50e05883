use vstd::prelude::*;
use crate::entities::{AccountId, Company, Employee, Timestamp, WorkSession};
use crate::errors::StreamPayError;
use crate::events::{
    CompanyInitialized, EarningsWithdrawn, EmployeeAdded, EmployeeClockedIn, EmployeeClockedOut,
    PayrollDeposited,
};
use crate::math::{calculate_earnings, centi_hours, centi_hours_of, earnings_of};

verus! {

/// Capability check: an operation is authorized exactly when the
/// already-authenticated caller is the required authority for the
/// entity it touches.
pub fn authorize(caller: AccountId, authority: AccountId) -> (ok: bool)
    ensures
        ok <==> caller == authority,
{
    caller == authority
}

// ---------------------------------------------------------------------
// Keyed lookup over the record sequences. Companies are keyed by their
// owner, employees by (company, employee), sessions by (company,
// employee, session_id). Under key uniqueness each lookup is the one
// record with that key.
// ---------------------------------------------------------------------
/// No two company records share an owner key.
pub open spec fn company_keys_unique(s: Seq<Company>) -> bool {
    forall|i: int, j: int| 0 <= i < j < s.len() ==> s[i].owner != s[j].owner
}

/// Some company record is keyed by `owner`.
pub open spec fn company_present(s: Seq<Company>, owner: AccountId) -> bool {
    exists|i: int| 0 <= i < s.len() && s[i].owner == owner
}

/// Index of the company record keyed by `owner` (meaningful under
/// presence and uniqueness).
pub open spec fn company_index(s: Seq<Company>, owner: AccountId) -> int {
    choose|i: int| 0 <= i < s.len() && s[i].owner == owner
}

/// The company record keyed by `owner`.
pub open spec fn company_record(s: Seq<Company>, owner: AccountId) -> Company {
    s[company_index(s, owner)]
}

/// No two employee records share a (company, employee) key.
pub open spec fn employee_keys_unique(s: Seq<Employee>) -> bool {
    forall|i: int, j: int|
        0 <= i < j < s.len() ==> !(s[i].company == s[j].company && s[i].employee
            == s[j].employee)
}

/// Some employee record is keyed by (`company`, `employee`).
pub open spec fn employee_present(s: Seq<Employee>, company: AccountId, employee: AccountId) -> bool {
    exists|i: int| 0 <= i < s.len() && s[i].company == company && s[i].employee == employee
}

/// Index of the employee record keyed by (`company`, `employee`).
pub open spec fn employee_index(s: Seq<Employee>, company: AccountId, employee: AccountId) -> int {
    choose|i: int| 0 <= i < s.len() && s[i].company == company && s[i].employee == employee
}

/// The employee record keyed by (`company`, `employee`).
pub open spec fn employee_record(s: Seq<Employee>, company: AccountId, employee: AccountId) -> Employee {
    s[employee_index(s, company, employee)]
}

/// No two sessions share a (company, employee, session_id) key.
pub open spec fn session_keys_unique(s: Seq<WorkSession>) -> bool {
    forall|i: int, j: int|
        0 <= i < j < s.len() ==> !(s[i].company == s[j].company && s[i].employee
            == s[j].employee && s[i].session_id == s[j].session_id)
}

/// Some session is keyed by (`company`, `employee`, `session_id`).
pub open spec fn session_present(
    s: Seq<WorkSession>,
    company: AccountId,
    employee: AccountId,
    session_id: int,
) -> bool {
    exists|i: int|
        0 <= i < s.len() && s[i].company == company && s[i].employee == employee
            && s[i].session_id == session_id
}

/// Index of the session keyed by (`company`, `employee`, `session_id`).
pub open spec fn session_index(
    s: Seq<WorkSession>,
    company: AccountId,
    employee: AccountId,
    session_id: int,
) -> int {
    choose|i: int|
        0 <= i < s.len() && s[i].company == company && s[i].employee == employee
            && s[i].session_id == session_id
}

/// The session keyed by (`company`, `employee`, `session_id`).
pub open spec fn session_record(
    s: Seq<WorkSession>,
    company: AccountId,
    employee: AccountId,
    session_id: int,
) -> WorkSession {
    s[session_index(s, company, employee, session_id)]
}

// ---------------------------------------------------------------------
// Under uniqueness, every record is the one its own key looks up, and
// a key-preserving update or a fresh push moves no lookup.
// ---------------------------------------------------------------------
/// The company at any index is the one its own key looks up.
pub proof fn lemma_company_index(s: Seq<Company>, i: int)
    requires
        company_keys_unique(s),
        0 <= i < s.len(),
    ensures
        company_present(s, s[i].owner),
        company_index(s, s[i].owner) == i,
        company_record(s, s[i].owner) == s[i],
{
    let owner = s[i].owner;
    assert(company_present(s, owner));
    let j = company_index(s, owner);
    if i != j {
        assert(s[i].owner != s[j].owner);
    }
}

/// An update that keeps the owner key moves no company lookup.
pub proof fn lemma_company_lookup_update(s: Seq<Company>, j: int, r: Company, owner: AccountId)
    requires
        company_keys_unique(s),
        0 <= j < s.len(),
        r.owner == s[j].owner,
    ensures
        company_keys_unique(s.update(j, r)),
        company_present(s.update(j, r), owner) == company_present(s, owner),
        company_present(s, owner) ==> company_index(s.update(j, r), owner) == company_index(
            s,
            owner,
        ),
{
    let t = s.update(j, r);
    assert(forall|k: int| 0 <= k < s.len() ==> t[k].owner == s[k].owner);
    if company_present(s, owner) {
        let i = company_index(s, owner);
        assert(t[i].owner == owner);
        assert(company_present(t, owner));
        let i2 = company_index(t, owner);
        assert(s[i2].owner == owner);
        if i != i2 {
            assert(s[i].owner != s[i2].owner);
        }
    }
    if company_present(t, owner) {
        let i = company_index(t, owner);
        assert(s[i].owner == owner);
        assert(company_present(s, owner));
    }
}

/// Pushing a company with a fresh owner key keeps uniqueness, adds its
/// own key, and moves no other lookup.
pub proof fn lemma_company_lookup_push(s: Seq<Company>, r: Company, owner: AccountId)
    requires
        company_keys_unique(s),
        !company_present(s, r.owner),
    ensures
        company_keys_unique(s.push(r)),
        owner == r.owner ==> company_present(s.push(r), owner) && company_index(s.push(r), owner)
            == s.len(),
        owner != r.owner ==> company_present(s.push(r), owner) == company_present(s, owner) && (
        company_present(s, owner) ==> company_index(s.push(r), owner) == company_index(s, owner)),
{
    let t = s.push(r);
    assert(forall|k: int| 0 <= k < s.len() ==> t[k] == s[k]);
    assert(t[s.len() as int] == r);
    assert forall|i: int, j: int| 0 <= i < j < t.len() implies t[i].owner != t[j].owner by {
        if j < s.len() {
            assert(s[i].owner != s[j].owner);
        } else {
            if t[i].owner == r.owner {
                assert(company_present(s, r.owner));
            }
        }
    }
    if owner == r.owner {
        assert(t[s.len() as int].owner == owner);
        assert(company_present(t, owner));
        let i = company_index(t, owner);
        if i != s.len() {
            assert(s[i].owner == owner);
            assert(company_present(s, r.owner));
        }
    } else {
        if company_present(s, owner) {
            let i = company_index(s, owner);
            assert(t[i].owner == owner);
            assert(company_present(t, owner));
            let i2 = company_index(t, owner);
            if i2 != i {
                if i2 == s.len() {
                    assert(t[i2].owner == r.owner);
                } else {
                    assert(s[i].owner != s[i2].owner || s[i2].owner != s[i].owner);
                }
            }
        }
        if company_present(t, owner) {
            let i = company_index(t, owner);
            assert(i != s.len());
            assert(s[i].owner == owner);
            assert(company_present(s, owner));
        }
    }
}

/// The employee record at any index is the one its own key looks up.
pub proof fn lemma_employee_index(s: Seq<Employee>, i: int)
    requires
        employee_keys_unique(s),
        0 <= i < s.len(),
    ensures
        employee_present(s, s[i].company, s[i].employee),
        employee_index(s, s[i].company, s[i].employee) == i,
        employee_record(s, s[i].company, s[i].employee) == s[i],
{
    let c = s[i].company;
    let e = s[i].employee;
    assert(employee_present(s, c, e));
    let j = employee_index(s, c, e);
    if i != j {
        assert(!(s[i].company == s[j].company && s[i].employee == s[j].employee));
    }
}

/// An update that keeps the (company, employee) key moves no employee
/// lookup.
pub proof fn lemma_employee_lookup_update(
    s: Seq<Employee>,
    j: int,
    r: Employee,
    company: AccountId,
    employee: AccountId,
)
    requires
        employee_keys_unique(s),
        0 <= j < s.len(),
        r.company == s[j].company,
        r.employee == s[j].employee,
    ensures
        employee_keys_unique(s.update(j, r)),
        employee_present(s.update(j, r), company, employee) == employee_present(
            s,
            company,
            employee,
        ),
        employee_present(s, company, employee) ==> employee_index(s.update(j, r), company, employee)
            == employee_index(s, company, employee),
{
    let t = s.update(j, r);
    assert(forall|k: int|
        0 <= k < s.len() ==> t[k].company == s[k].company && t[k].employee == s[k].employee);
    if employee_present(s, company, employee) {
        let i = employee_index(s, company, employee);
        assert(t[i].company == company && t[i].employee == employee);
        assert(employee_present(t, company, employee));
        let i2 = employee_index(t, company, employee);
        assert(s[i2].company == company && s[i2].employee == employee);
        if i != i2 {
            assert(!(s[i].company == s[i2].company && s[i].employee == s[i2].employee));
        }
    }
    if employee_present(t, company, employee) {
        let i = employee_index(t, company, employee);
        assert(s[i].company == company && s[i].employee == employee);
        assert(employee_present(s, company, employee));
    }
}

/// Pushing an employee record with a fresh key keeps uniqueness, adds
/// its own key, and moves no other lookup.
pub proof fn lemma_employee_lookup_push(
    s: Seq<Employee>,
    r: Employee,
    company: AccountId,
    employee: AccountId,
)
    requires
        employee_keys_unique(s),
        !employee_present(s, r.company, r.employee),
    ensures
        employee_keys_unique(s.push(r)),
        (company == r.company && employee == r.employee) ==> employee_present(
            s.push(r),
            company,
            employee,
        ) && employee_index(s.push(r), company, employee) == s.len(),
        !(company == r.company && employee == r.employee) ==> employee_present(
            s.push(r),
            company,
            employee,
        ) == employee_present(s, company, employee) && (employee_present(s, company, employee)
            ==> employee_index(s.push(r), company, employee) == employee_index(
            s,
            company,
            employee,
        )),
{
    let t = s.push(r);
    assert(forall|k: int| 0 <= k < s.len() ==> t[k] == s[k]);
    assert(t[s.len() as int] == r);
    assert forall|i: int, j: int| 0 <= i < j < t.len() implies !(t[i].company == t[j].company
        && t[i].employee == t[j].employee) by {
        if j < s.len() {
            assert(!(s[i].company == s[j].company && s[i].employee == s[j].employee));
        } else {
            if t[i].company == r.company && t[i].employee == r.employee {
                assert(employee_present(s, r.company, r.employee));
            }
        }
    }
    if company == r.company && employee == r.employee {
        assert(t[s.len() as int].company == company && t[s.len() as int].employee == employee);
        assert(employee_present(t, company, employee));
        let i = employee_index(t, company, employee);
        if i != s.len() {
            assert(employee_present(s, r.company, r.employee));
        }
    } else {
        if employee_present(s, company, employee) {
            let i = employee_index(s, company, employee);
            assert(t[i].company == company && t[i].employee == employee);
            assert(employee_present(t, company, employee));
            let i2 = employee_index(t, company, employee);
            if i2 != i {
                if i2 == s.len() {
                    assert(t[i2] == r);
                } else {
                    assert(!(s[i].company == s[i2].company && s[i].employee == s[i2].employee));
                }
            }
        }
        if employee_present(t, company, employee) {
            let i = employee_index(t, company, employee);
            assert(i != s.len());
            assert(s[i].company == company && s[i].employee == employee);
            assert(employee_present(s, company, employee));
        }
    }
}

/// The session at any index is the one its own key looks up.
pub proof fn lemma_session_index(s: Seq<WorkSession>, i: int)
    requires
        session_keys_unique(s),
        0 <= i < s.len(),
    ensures
        session_present(s, s[i].company, s[i].employee, s[i].session_id as int),
        session_index(s, s[i].company, s[i].employee, s[i].session_id as int) == i,
        session_record(s, s[i].company, s[i].employee, s[i].session_id as int) == s[i],
{
    let c = s[i].company;
    let e = s[i].employee;
    let sid = s[i].session_id as int;
    assert(session_present(s, c, e, sid));
    let j = session_index(s, c, e, sid);
    if i != j {
        assert(!(s[i].company == s[j].company && s[i].employee == s[j].employee
            && s[i].session_id == s[j].session_id));
    }
}

/// An update that keeps the session key moves no session lookup.
pub proof fn lemma_session_lookup_update(
    s: Seq<WorkSession>,
    j: int,
    r: WorkSession,
    company: AccountId,
    employee: AccountId,
    session_id: int,
)
    requires
        session_keys_unique(s),
        0 <= j < s.len(),
        r.company == s[j].company,
        r.employee == s[j].employee,
        r.session_id == s[j].session_id,
    ensures
        session_keys_unique(s.update(j, r)),
        session_present(s.update(j, r), company, employee, session_id) == session_present(
            s,
            company,
            employee,
            session_id,
        ),
        session_present(s, company, employee, session_id) ==> session_index(
            s.update(j, r),
            company,
            employee,
            session_id,
        ) == session_index(s, company, employee, session_id),
{
    let t = s.update(j, r);
    assert(forall|k: int|
        0 <= k < s.len() ==> t[k].company == s[k].company && t[k].employee == s[k].employee
            && t[k].session_id == s[k].session_id);
    if session_present(s, company, employee, session_id) {
        let i = session_index(s, company, employee, session_id);
        assert(t[i].company == company && t[i].employee == employee && t[i].session_id
            == session_id);
        assert(session_present(t, company, employee, session_id));
        let i2 = session_index(t, company, employee, session_id);
        assert(s[i2].company == company && s[i2].employee == employee && s[i2].session_id
            == session_id);
        if i != i2 {
            assert(!(s[i].company == s[i2].company && s[i].employee == s[i2].employee
                && s[i].session_id == s[i2].session_id));
        }
    }
    if session_present(t, company, employee, session_id) {
        let i = session_index(t, company, employee, session_id);
        assert(s[i].company == company && s[i].employee == employee && s[i].session_id
            == session_id);
        assert(session_present(s, company, employee, session_id));
    }
}

/// Pushing a session with a fresh key keeps uniqueness, adds its own
/// key, and moves no other lookup.
pub proof fn lemma_session_lookup_push(
    s: Seq<WorkSession>,
    r: WorkSession,
    company: AccountId,
    employee: AccountId,
    session_id: int,
)
    requires
        session_keys_unique(s),
        !session_present(s, r.company, r.employee, r.session_id as int),
    ensures
        session_keys_unique(s.push(r)),
        (company == r.company && employee == r.employee && session_id == r.session_id)
            ==> session_present(s.push(r), company, employee, session_id) && session_index(
            s.push(r),
            company,
            employee,
            session_id,
        ) == s.len(),
        !(company == r.company && employee == r.employee && session_id == r.session_id)
            ==> session_present(s.push(r), company, employee, session_id) == session_present(
            s,
            company,
            employee,
            session_id,
        ) && (session_present(s, company, employee, session_id) ==> session_index(
            s.push(r),
            company,
            employee,
            session_id,
        ) == session_index(s, company, employee, session_id)),
{
    let t = s.push(r);
    assert(forall|k: int| 0 <= k < s.len() ==> t[k] == s[k]);
    assert(t[s.len() as int] == r);
    assert forall|i: int, j: int| 0 <= i < j < t.len() implies !(t[i].company == t[j].company
        && t[i].employee == t[j].employee && t[i].session_id == t[j].session_id) by {
        if j < s.len() {
            assert(!(s[i].company == s[j].company && s[i].employee == s[j].employee
                && s[i].session_id == s[j].session_id));
        } else {
            if t[i].company == r.company && t[i].employee == r.employee && t[i].session_id
                == r.session_id {
                assert(session_present(s, r.company, r.employee, r.session_id as int));
            }
        }
    }
    if company == r.company && employee == r.employee && session_id == r.session_id {
        assert(session_present(t, company, employee, session_id));
        let i = session_index(t, company, employee, session_id);
        if i != s.len() {
            assert(session_present(s, r.company, r.employee, r.session_id as int));
        }
    } else {
        if session_present(s, company, employee, session_id) {
            let i = session_index(s, company, employee, session_id);
            assert(t[i].company == company && t[i].employee == employee && t[i].session_id
                == session_id);
            assert(session_present(t, company, employee, session_id));
            let i2 = session_index(t, company, employee, session_id);
            if i2 != i {
                if i2 == s.len() {
                    assert(t[i2] == r);
                } else {
                    assert(!(s[i].company == s[i2].company && s[i].employee == s[i2].employee
                        && s[i].session_id == s[i2].session_id));
                }
            }
        }
        if session_present(t, company, employee, session_id) {
            let i = session_index(t, company, employee, session_id);
            assert(i != s.len());
            assert(s[i].company == company && s[i].employee == employee && s[i].session_id
                == session_id);
            assert(session_present(s, company, employee, session_id));
        }
    }
}

// ---------------------------------------------------------------------
// Counting employee records per company.
// ---------------------------------------------------------------------
/// Number of employee records in `s` that reference the company keyed
/// by `company`.
pub open spec fn count_employees_of(s: Seq<Employee>, company: AccountId) -> int
    decreases s.len(),
{
    if s.len() == 0 {
        0
    } else {
        count_employees_of(s.drop_last(), company) + if s.last().company == company {
            1int
        } else {
            0int
        }
    }
}

/// Appending a record raises the count for its company by one and
/// leaves every other company's count unchanged.
pub proof fn lemma_count_push(s: Seq<Employee>, e: Employee, company: AccountId)
    ensures
        count_employees_of(s.push(e), company) == count_employees_of(s, company) + if e.company
            == company {
            1int
        } else {
            0int
        },
{
    assert(s.push(e).drop_last() =~= s);
    assert(s.push(e).last() == e);
}

/// Replacing a record with one that references the same company leaves
/// every company's count unchanged.
pub proof fn lemma_count_update(s: Seq<Employee>, i: int, e: Employee, company: AccountId)
    requires
        0 <= i < s.len(),
        s[i].company == e.company,
    ensures
        count_employees_of(s.update(i, e), company) == count_employees_of(s, company),
    decreases s.len(),
{
    if i == s.len() - 1 {
        assert(s.update(i, e).drop_last() =~= s.drop_last());
        assert(s.update(i, e).last() == e);
    } else {
        assert(s.update(i, e).drop_last() =~= s.drop_last().update(i, e));
        assert(s.update(i, e).last() == s.last());
        lemma_count_update(s.drop_last(), i, e, company);
    }
}

/// A company that no record references has a count of zero.
pub proof fn lemma_count_absent(s: Seq<Employee>, company: AccountId)
    requires
        forall|k: int| 0 <= k < s.len() ==> s[k].company != company,
    ensures
        count_employees_of(s, company) == 0,
    decreases s.len(),
{
    if s.len() > 0 {
        assert forall|k: int| 0 <= k < s.drop_last().len() implies s.drop_last()[k].company
            != company by {
            assert(s.drop_last()[k] == s[k]);
        }
        lemma_count_absent(s.drop_last(), company);
    }
}

// ---------------------------------------------------------------------
// The ledger itself.
// ---------------------------------------------------------------------
/// The payroll ledger: the entity store that owns every Company,
/// Employee and WorkSession record and is the serialization point for
/// all mutation. Each operation takes the store exclusively,
/// re-validates its preconditions against the current records, and
/// either applies every field update of the operation or none.
pub struct Ledger {
    /// Company records, unique by owner identity.
    pub companies: Vec<Company>,
    /// Employee records, unique by (company, employee).
    pub employees: Vec<Employee>,
    /// Work sessions, unique by (company, employee, session_id).
    pub sessions: Vec<WorkSession>,
}

impl Ledger {
    /// There is a company record keyed by `owner`.
    pub open spec fn has_company(self, owner: AccountId) -> bool {
        company_present(self.companies@, owner)
    }

    /// The company record keyed by `owner`.
    pub open spec fn company_at(self, owner: AccountId) -> Company {
        company_record(self.companies@, owner)
    }

    /// There is an employee record keyed by (`company`, `employee`).
    pub open spec fn has_employee(self, company: AccountId, employee: AccountId) -> bool {
        employee_present(self.employees@, company, employee)
    }

    /// The employee record keyed by (`company`, `employee`).
    pub open spec fn employee_at(self, company: AccountId, employee: AccountId) -> Employee {
        employee_record(self.employees@, company, employee)
    }

    /// There is a session keyed by (`company`, `employee`, `session_id`).
    pub open spec fn has_session(
        self,
        company: AccountId,
        employee: AccountId,
        session_id: int,
    ) -> bool {
        session_present(self.sessions@, company, employee, session_id)
    }

    /// The session keyed by (`company`, `employee`, `session_id`).
    pub open spec fn session_at(
        self,
        company: AccountId,
        employee: AccountId,
        session_id: int,
    ) -> WorkSession {
        session_record(self.sessions@, company, employee, session_id)
    }

    /// A company record in isolation: its name has 1 to 32 characters.
    pub open spec fn company_valid(c: Company) -> bool {
        1 <= c.company_name@.len() <= 32
    }

    /// Every company record is valid in isolation.
    pub open spec fn companies_valid(self) -> bool {
        forall|i: int|
            0 <= i < self.companies@.len() ==> Self::company_valid(#[trigger] self.companies@[i])
    }

    /// Each company's `employee_count` equals the number of employee
    /// records that reference it.
    pub open spec fn counts_ok(self) -> bool {
        forall|i: int|
            0 <= i < self.companies@.len() ==> (#[trigger] self.companies@[i]).employee_count
                == count_employees_of(self.employees@, self.companies@[i].owner)
    }

    /// An employee record: withdrawals never exceed earnings, the rate
    /// is positive, and the owning company exists.
    pub open spec fn employee_valid(self, e: Employee) -> bool {
        &&& e.total_withdrawn <= e.total_earned
        &&& e.hourly_rate > 0
        &&& self.has_company(e.company)
    }

    /// Every employee record is valid.
    pub open spec fn employees_valid(self) -> bool {
        forall|i: int|
            0 <= i < self.employees@.len() ==> self.employee_valid(#[trigger] self.employees@[i])
    }

    /// A session is open while its clock-out time is unset (zero).
    pub open spec fn session_open(s: WorkSession) -> bool {
        s.clock_out_time == 0
    }

    /// A session against its owning employee record: the record exists,
    /// the sequence number was taken from the record's counter, an open
    /// session is the record's current one (the record is clocked in,
    /// the session is the latest, its clock-in time is the record's,
    /// and it has no hours or earnings yet), and a closed session
    /// closed strictly after it opened.
    pub open spec fn session_valid(self, s: WorkSession) -> bool {
        &&& self.has_employee(s.company, s.employee)
        &&& s.session_id < self.employee_at(s.company, s.employee).total_sessions_count
        &&& (Self::session_open(s) ==> {
            &&& s.hours_worked == 0
            &&& s.amount_earned == 0
            &&& self.employee_at(s.company, s.employee).is_clocked_in
            &&& s.session_id == self.employee_at(s.company, s.employee).total_sessions_count - 1
            &&& s.clock_in_time == self.employee_at(s.company, s.employee).last_clock_in
        })
        &&& (!Self::session_open(s) ==> s.clock_out_time > s.clock_in_time)
    }

    /// Every session is valid.
    pub open spec fn sessions_valid(self) -> bool {
        forall|i: int|
            0 <= i < self.sessions@.len() ==> self.session_valid(#[trigger] self.sessions@[i])
    }

    /// Every clocked-in employee record has its open session: the one
    /// whose sequence number is the record's counter minus one.
    pub open spec fn clocked_in_ok(self) -> bool {
        forall|i: int|
            0 <= i < self.employees@.len() ==> ((#[trigger] self.employees@[i]).is_clocked_in
                ==> {
                &&& self.employees@[i].total_sessions_count >= 1
                &&& self.has_session(
                    self.employees@[i].company,
                    self.employees@[i].employee,
                    self.employees@[i].total_sessions_count - 1,
                )
                &&& Self::session_open(
                    self.session_at(
                        self.employees@[i].company,
                        self.employees@[i].employee,
                        self.employees@[i].total_sessions_count - 1,
                    ),
                )
            })
    }

    /// Well-formedness of the whole ledger: every operation requires it
    /// and re-establishes it.
    pub open spec fn wf(self) -> bool {
        &&& company_keys_unique(self.companies@)
        &&& employee_keys_unique(self.employees@)
        &&& session_keys_unique(self.sessions@)
        &&& self.companies_valid()
        &&& self.counts_ok()
        &&& self.employees_valid()
        &&& self.sessions_valid()
        &&& self.clocked_in_ok()
    }

    /// Creates an empty ledger.
    pub fn new() -> (l: Ledger)
        ensures
            l.wf(),
            l.companies@.len() == 0,
            l.employees@.len() == 0,
            l.sessions@.len() == 0,
    {
        Ledger { companies: Vec::new(), employees: Vec::new(), sessions: Vec::new() }
    }

    /// Creates the company owned by `owner`, named `company_name`, at
    /// time `now`. One company per owner: a second creation fails with
    /// `AlreadyExists`. The name must have 1 to 32 characters. On
    /// success the new record starts with no deposits and no employees,
    /// and the one `CompanyInitialized` event is returned.
    pub fn initialize_company(
        &mut self,
        owner: AccountId,
        company_name: String,
        now: Timestamp,
    ) -> (r: Result<CompanyInitialized, StreamPayError>)
        requires
            old(self).wf(),
        ensures
            final(self).wf(),
            final(self).employees@ == old(self).employees@,
            final(self).sessions@ == old(self).sessions@,
            r is Ok <==> (!old(self).has_company(owner) && 1 <= company_name@.len() <= 32),
            match r {
                Ok(ev) => {
                    &&& final(self).companies@ == old(self).companies@.push(
                        (Company {
                            owner,
                            total_deposited: 0,
                            employee_count: 0,
                            company_name,
                            created_at: now,
                        }),
                    )
                    &&& ev.company == owner
                    &&& ev.owner == owner
                    &&& ev.company_name@ == company_name@
                    &&& ev.timestamp == now
                },
                Err(err) => {
                    &&& final(self).companies@ == old(self).companies@
                    &&& if old(self).has_company(owner) {
                        err == StreamPayError::AlreadyExists
                    } else if company_name@.len() == 0 {
                        err == StreamPayError::InvalidCompanyName
                    } else {
                        err == StreamPayError::CompanyNameTooLong
                    }
                },
            },
    {
        match find_company(&self.companies, owner) {
            Some(i) => {
                proof {
                    assert(self.has_company(owner));
                }
                Err(StreamPayError::AlreadyExists)
            },
            None => {
                proof {
                    assert(!self.has_company(owner));
                }
                let name_len = company_name.unicode_len();
                if name_len == 0 {
                    return Err(StreamPayError::InvalidCompanyName);
                }
                if name_len > 32 {
                    return Err(StreamPayError::CompanyNameTooLong);
                }
                let event_name = company_name.clone();
                let company = Company {
                    owner,
                    total_deposited: 0,
                    employee_count: 0,
                    company_name,
                    created_at: now,
                };
                self.companies.push(company);
                proof {
                    let olds = old(self).companies@;
                    let news = self.companies@;
                    lemma_company_lookup_push(olds, news.last(), owner);
                    assert forall|k: int|
                        0 <= k < self.employees@.len() implies self.employees@[k].company
                        != owner by {
                        assert(old(self).employee_valid(old(self).employees@[k]));
                    }
                    lemma_count_absent(self.employees@, owner);
                    assert forall|i2: int|
                        0 <= i2 < news.len() implies (#[trigger] news[i2]).employee_count
                        == count_employees_of(self.employees@, news[i2].owner) by {
                        if i2 < olds.len() {
                            assert(news[i2] == olds[i2]);
                            assert(olds[i2].employee_count == count_employees_of(
                                old(self).employees@,
                                olds[i2].owner,
                            ));
                        }
                    }
                    assert forall|k: int|
                        0 <= k < self.employees@.len() implies self.employee_valid(
                        #[trigger] self.employees@[k],
                    ) by {
                        assert(old(self).employee_valid(old(self).employees@[k]));
                        let w = choose|i3: int|
                            0 <= i3 < olds.len() && olds[i3].owner
                                == old(self).employees@[k].company;
                        assert(news[w].owner == self.employees@[k].company);
                    }
                    assert forall|k: int|
                        0 <= k < news.len() implies Self::company_valid(#[trigger] news[k]) by {
                        if k < olds.len() {
                            assert(Self::company_valid(olds[k]));
                        }
                    }
                    assert forall|k: int|
                        0 <= k < self.sessions@.len() implies self.session_valid(
                        #[trigger] self.sessions@[k],
                    ) by {
                        assert(old(self).session_valid(old(self).sessions@[k]));
                    }
                    assert(self.wf());
                }
                Ok(
                    CompanyInitialized {
                        company: owner,
                        owner: owner,
                        company_name: event_name,
                        timestamp: now,
                    },
                )
            },
        }
    }

    /// Adds an employee record for `employee` to the company owned by
    /// `company_owner`, at `hourly_rate` monetary units per hour. Only
    /// the company owner may add employees, the rate must be positive,
    /// and one record per (company, employee) pair exists: a duplicate
    /// fails with `AlreadyExists`. The new record and the company's
    /// raised `employee_count` are written together, atomically as a
    /// pair. On success the one `EmployeeAdded` event is returned.
    pub fn add_employee(
        &mut self,
        company_owner: AccountId,
        caller: AccountId,
        employee: AccountId,
        hourly_rate: u64,
        now: Timestamp,
    ) -> (r: Result<EmployeeAdded, StreamPayError>)
        requires
            old(self).wf(),
        ensures
            final(self).wf(),
            final(self).sessions@ == old(self).sessions@,
            r is Ok <==> (old(self).has_company(company_owner) && caller == company_owner && !old(
                self,
            ).has_employee(company_owner, employee) && hourly_rate > 0 && old(self).company_at(
                company_owner,
            ).employee_count + 1 <= u32::MAX),
            match r {
                Ok(ev) => {
                    let c = old(self).company_at(company_owner);
                    &&& final(self).employees@ == old(self).employees@.push(
                        (Employee {
                            company: company_owner,
                            employee,
                            hourly_rate,
                            total_hours_worked: 0,
                            last_clock_in: 0,
                            is_clocked_in: false,
                            total_withdrawn: 0,
                            total_earned: 0,
                            created_at: now,
                            total_sessions_count: 0,
                        }),
                    )
                    &&& final(self).companies@ == old(self).companies@.update(
                        company_index(old(self).companies@, company_owner),
                        (Company {
                            owner: c.owner,
                            total_deposited: c.total_deposited,
                            employee_count: (c.employee_count + 1) as u32,
                            company_name: c.company_name,
                            created_at: c.created_at,
                        }),
                    )
                    &&& ev == (EmployeeAdded { company: company_owner, employee, hourly_rate, timestamp: now })
                },
                Err(err) => {
                    &&& final(self).companies@ == old(self).companies@
                    &&& final(self).employees@ == old(self).employees@
                    &&& if !old(self).has_company(company_owner) {
                        err == StreamPayError::NotFound
                    } else if caller != company_owner {
                        err == StreamPayError::UnauthorizedCompanyAccess
                    } else if old(self).has_employee(company_owner, employee) {
                        err == StreamPayError::AlreadyExists
                    } else if hourly_rate == 0 {
                        err == StreamPayError::InvalidHourlyRate
                    } else {
                        err == StreamPayError::Overflow && old(self).company_at(
                            company_owner,
                        ).employee_count + 1 > u32::MAX
                    }
                },
            },
    {
        match find_company(&self.companies, company_owner) {
            None => {
                proof {
                    assert(!self.has_company(company_owner));
                }
                Err(StreamPayError::NotFound)
            },
            Some(i) => {
                proof {
                    lemma_company_index(self.companies@, i as int);
                }
                if !authorize(caller, company_owner) {
                    return Err(StreamPayError::UnauthorizedCompanyAccess);
                }
                match find_employee(&self.employees, company_owner, employee) {
                    Some(_existing) => {
                        proof {
                            assert(self.has_employee(company_owner, employee));
                        }
                        Err(StreamPayError::AlreadyExists)
                    },
                    None => {
                        proof {
                            assert(!self.has_employee(company_owner, employee));
                        }
                        if hourly_rate == 0 {
                            return Err(StreamPayError::InvalidHourlyRate);
                        }
                        let old_count = self.companies[i].employee_count;
                        if old_count == u32::MAX {
                            return Err(StreamPayError::Overflow);
                        }
                        let record = Employee {
                            company: company_owner,
                            employee,
                            hourly_rate,
                            total_hours_worked: 0,
                            last_clock_in: 0,
                            is_clocked_in: false,
                            total_withdrawn: 0,
                            total_earned: 0,
                            created_at: now,
                            total_sessions_count: 0,
                        };
                        self.employees.push(record);
                        let c = vstd::std_specs::vec::vec_index_mut(&mut self.companies, i);
                        c.employee_count = old_count + 1;
                        proof {
                            let olds_c = old(self).companies@;
                            let news_c = self.companies@;
                            let olds_e = old(self).employees@;
                            let news_e = self.employees@;
                            assert(news_c == olds_c.update(
                                i as int,
                                (Company {
                                    owner: olds_c[i as int].owner,
                                    total_deposited: olds_c[i as int].total_deposited,
                                    employee_count: (old_count + 1) as u32,
                                    company_name: olds_c[i as int].company_name,
                                    created_at: olds_c[i as int].created_at,
                                }),
                            ));
                            assert(news_e == olds_e.push(record));
                            lemma_company_lookup_update(
                                olds_c,
                                i as int,
                                news_c[i as int],
                                company_owner,
                            );
                            lemma_employee_lookup_push(olds_e, record, company_owner, employee);
                            assert forall|k: int|
                                0 <= k < news_c.len() implies Self::company_valid(
                                #[trigger] news_c[k],
                            ) && news_c[k].employee_count == count_employees_of(
                                news_e,
                                news_c[k].owner,
                            ) by {
                                assert(Self::company_valid(olds_c[k]));
                                assert(olds_c[k].employee_count == count_employees_of(
                                    olds_e,
                                    olds_c[k].owner,
                                ));
                                lemma_count_push(olds_e, record, news_c[k].owner);
                                if k != i {
                                    assert(olds_c[k].owner != olds_c[i as int].owner);
                                }
                            }
                            assert forall|k: int|
                                0 <= k < news_e.len() implies self.employee_valid(
                                #[trigger] news_e[k],
                            ) by {
                                if k < olds_e.len() {
                                    assert(news_e[k] == olds_e[k]);
                                    assert(old(self).employee_valid(olds_e[k]));
                                    lemma_company_lookup_update(
                                        olds_c,
                                        i as int,
                                        news_c[i as int],
                                        olds_e[k].company,
                                    );
                                } else {
                                    assert(news_e[k] == record);
                                    assert(company_present(news_c, company_owner));
                                }
                            }
                            assert forall|k: int|
                                0 <= k < self.sessions@.len() implies self.session_valid(
                                #[trigger] self.sessions@[k],
                            ) by {
                                let t = self.sessions@[k];
                                assert(old(self).session_valid(t));
                                if t.company == company_owner && t.employee == employee {
                                    assert(employee_present(olds_e, company_owner, employee));
                                }
                                lemma_employee_lookup_push(olds_e, record, t.company, t.employee);
                                let w = employee_index(olds_e, t.company, t.employee);
                                assert(0 <= w < olds_e.len() && olds_e[w].company == t.company
                                    && olds_e[w].employee == t.employee);
                                assert(news_e[w] == olds_e[w]);
                            }
                            assert forall|k: int|
                                0 <= k < news_e.len() implies ((#[trigger] news_e[k]).is_clocked_in
                                ==> {
                                &&& news_e[k].total_sessions_count >= 1
                                &&& self.has_session(
                                    news_e[k].company,
                                    news_e[k].employee,
                                    news_e[k].total_sessions_count - 1,
                                )
                                &&& Self::session_open(
                                    self.session_at(
                                        news_e[k].company,
                                        news_e[k].employee,
                                        news_e[k].total_sessions_count - 1,
                                    ),
                                )
                            }) by {
                                if k < olds_e.len() {
                                    assert(news_e[k] == olds_e[k]);
                                } else {
                                    assert(!news_e[k].is_clocked_in);
                                }
                            }
                            assert(self.wf());
                        }
                        Ok(
                            EmployeeAdded {
                                company: company_owner,
                                employee,
                                hourly_rate,
                                timestamp: now,
                            },
                        )
                    },
                }
            },
        }
    }

    /// Deposits `amount` monetary units into the payroll pool of the
    /// company owned by `company_owner`. Only the owner may deposit and
    /// the amount must be positive; the cumulative total is raised by
    /// checked addition. The funds-custody collaborator moves the
    /// actual value before the ledger is updated. On success the one
    /// `PayrollDeposited` event is returned.
    pub fn deposit_payroll(
        &mut self,
        company_owner: AccountId,
        caller: AccountId,
        amount: u64,
        now: Timestamp,
    ) -> (r: Result<PayrollDeposited, StreamPayError>)
        requires
            old(self).wf(),
        ensures
            final(self).wf(),
            final(self).employees@ == old(self).employees@,
            final(self).sessions@ == old(self).sessions@,
            r is Ok <==> (old(self).has_company(company_owner) && caller == company_owner && amount
                > 0 && old(self).company_at(company_owner).total_deposited + amount <= u64::MAX),
            match r {
                Ok(ev) => {
                    let c = old(self).company_at(company_owner);
                    &&& final(self).companies@ == old(self).companies@.update(
                        company_index(old(self).companies@, company_owner),
                        (Company {
                            owner: c.owner,
                            total_deposited: (c.total_deposited + amount) as u64,
                            employee_count: c.employee_count,
                            company_name: c.company_name,
                            created_at: c.created_at,
                        }),
                    )
                    &&& ev == (PayrollDeposited {
                        company: company_owner,
                        owner: company_owner,
                        amount,
                        new_balance: (c.total_deposited + amount) as u64,
                        timestamp: now,
                    })
                },
                Err(err) => {
                    &&& final(self).companies@ == old(self).companies@
                    &&& if !old(self).has_company(company_owner) {
                        err == StreamPayError::NotFound
                    } else if caller != company_owner {
                        err == StreamPayError::UnauthorizedCompanyAccess
                    } else if amount == 0 {
                        err == StreamPayError::InvalidDepositAmount
                    } else {
                        err == StreamPayError::Overflow && old(self).company_at(
                            company_owner,
                        ).total_deposited + amount > u64::MAX
                    }
                },
            },
    {
        match find_company(&self.companies, company_owner) {
            None => {
                proof {
                    assert(!self.has_company(company_owner));
                }
                Err(StreamPayError::NotFound)
            },
            Some(i) => {
                proof {
                    lemma_company_index(self.companies@, i as int);
                }
                if !authorize(caller, company_owner) {
                    return Err(StreamPayError::UnauthorizedCompanyAccess);
                }
                if amount == 0 {
                    return Err(StreamPayError::InvalidDepositAmount);
                }
                let old_total = self.companies[i].total_deposited;
                if old_total > u64::MAX - amount {
                    return Err(StreamPayError::Overflow);
                }
                let new_total = old_total + amount;
                let c = vstd::std_specs::vec::vec_index_mut(&mut self.companies, i);
                c.total_deposited = new_total;
                proof {
                    let olds = old(self).companies@;
                    let news = self.companies@;
                    assert(news == olds.update(
                        i as int,
                        (Company {
                            owner: olds[i as int].owner,
                            total_deposited: new_total,
                            employee_count: olds[i as int].employee_count,
                            company_name: olds[i as int].company_name,
                            created_at: olds[i as int].created_at,
                        }),
                    ));
                    lemma_company_lookup_update(olds, i as int, news[i as int], company_owner);
                    assert forall|k: int|
                        0 <= k < news.len() implies Self::company_valid(#[trigger] news[k])
                        && news[k].employee_count == count_employees_of(
                        self.employees@,
                        news[k].owner,
                    ) by {
                        assert(Self::company_valid(olds[k]));
                        assert(olds[k].employee_count == count_employees_of(
                            old(self).employees@,
                            olds[k].owner,
                        ));
                        assert(news[k].owner == olds[k].owner && news[k].employee_count
                            == olds[k].employee_count && news[k].company_name
                            == olds[k].company_name);
                    }
                    assert forall|k: int|
                        0 <= k < self.employees@.len() implies self.employee_valid(
                        #[trigger] self.employees@[k],
                    ) by {
                        assert(old(self).employee_valid(old(self).employees@[k]));
                        let w = choose|i3: int|
                            0 <= i3 < olds.len() && olds[i3].owner
                                == old(self).employees@[k].company;
                        assert(news[w].owner == self.employees@[k].company);
                    }
                    assert forall|k: int|
                        0 <= k < self.sessions@.len() implies self.session_valid(
                        #[trigger] self.sessions@[k],
                    ) by {
                        assert(old(self).session_valid(old(self).sessions@[k]));
                    }
                    assert(self.wf());
                }
                Ok(
                    PayrollDeposited {
                        company: company_owner,
                        owner: company_owner,
                        amount,
                        new_balance: new_total,
                        timestamp: now,
                    },
                )
            },
        }
    }
    /// Opens a work session at time `now` for the employee keyed by
    /// (`company`, `employee`). Only the employee may clock in, and
    /// only from the clocked-out state: a second clock-in without an
    /// intervening clock-out fails with `AlreadyClockedIn` and changes
    /// nothing. On success a new open session is appended under the
    /// record's session counter, the counter is raised by checked
    /// addition, and the one `EmployeeClockedIn` event is returned.
    pub fn clock_in(
        &mut self,
        company: AccountId,
        employee: AccountId,
        caller: AccountId,
        now: Timestamp,
    ) -> (r: Result<EmployeeClockedIn, StreamPayError>)
        requires
            old(self).wf(),
        ensures
            final(self).wf(),
            final(self).companies@ == old(self).companies@,
            r is Ok <==> (old(self).has_employee(company, employee) && caller == employee && !old(
                self,
            ).employee_at(company, employee).is_clocked_in && old(self).employee_at(
                company,
                employee,
            ).total_sessions_count + 1 <= u64::MAX),
            match r {
                Ok(ev) => {
                    let e = old(self).employee_at(company, employee);
                    &&& final(self).sessions@ == old(self).sessions@.push(
                        (WorkSession {
                            company,
                            employee,
                            clock_in_time: now,
                            clock_out_time: 0,
                            hours_worked: 0,
                            amount_earned: 0,
                            session_id: e.total_sessions_count,
                        }),
                    )
                    &&& final(self).employees@ == old(self).employees@.update(
                        employee_index(old(self).employees@, company, employee),
                        (Employee {
                            company: e.company,
                            employee: e.employee,
                            hourly_rate: e.hourly_rate,
                            total_hours_worked: e.total_hours_worked,
                            last_clock_in: now,
                            is_clocked_in: true,
                            total_withdrawn: e.total_withdrawn,
                            total_earned: e.total_earned,
                            created_at: e.created_at,
                            total_sessions_count: (e.total_sessions_count + 1) as u64,
                        }),
                    )
                    &&& ev == (EmployeeClockedIn {
                        employee,
                        company,
                        clock_in_time: now,
                        session_id: e.total_sessions_count,
                    })
                },
                Err(err) => {
                    &&& final(self).employees@ == old(self).employees@
                    &&& final(self).sessions@ == old(self).sessions@
                    &&& if !old(self).has_employee(company, employee) {
                        err == StreamPayError::NotFound
                    } else if caller != employee {
                        err == StreamPayError::UnauthorizedEmployeeAccess
                    } else if old(self).employee_at(company, employee).is_clocked_in {
                        err == StreamPayError::AlreadyClockedIn
                    } else {
                        err == StreamPayError::Overflow && old(self).employee_at(
                            company,
                            employee,
                        ).total_sessions_count + 1 > u64::MAX
                    }
                },
            },
    {
        match find_employee(&self.employees, company, employee) {
            None => {
                proof {
                    assert(!self.has_employee(company, employee));
                }
                Err(StreamPayError::NotFound)
            },
            Some(j) => {
                proof {
                    lemma_employee_index(self.employees@, j as int);
                }
                if !authorize(caller, employee) {
                    return Err(StreamPayError::UnauthorizedEmployeeAccess);
                }
                let e = self.employees[j];
                if e.is_clocked_in {
                    return Err(StreamPayError::AlreadyClockedIn);
                }
                if e.total_sessions_count == u64::MAX {
                    return Err(StreamPayError::Overflow);
                }
                let session = WorkSession {
                    company,
                    employee,
                    clock_in_time: now,
                    clock_out_time: 0,
                    hours_worked: 0,
                    amount_earned: 0,
                    session_id: e.total_sessions_count,
                };
                let updated = Employee {
                    company: e.company,
                    employee: e.employee,
                    hourly_rate: e.hourly_rate,
                    total_hours_worked: e.total_hours_worked,
                    last_clock_in: now,
                    is_clocked_in: true,
                    total_withdrawn: e.total_withdrawn,
                    total_earned: e.total_earned,
                    created_at: e.created_at,
                    total_sessions_count: e.total_sessions_count + 1,
                };
                proof {
                    if session_present(
                        self.sessions@,
                        company,
                        employee,
                        e.total_sessions_count as int,
                    ) {
                        let w = session_index(
                            self.sessions@,
                            company,
                            employee,
                            e.total_sessions_count as int,
                        );
                        assert(self.session_valid(self.sessions@[w]));
                    }
                }
                self.sessions.push(session);
                self.employees[j] = updated;
                proof {
                    let olds_e = old(self).employees@;
                    let news_e = self.employees@;
                    let olds_s = old(self).sessions@;
                    let news_s = self.sessions@;
                    assert(news_e == olds_e.update(j as int, updated));
                    assert(news_s == olds_s.push(session));
                    lemma_employee_lookup_update(olds_e, j as int, updated, company, employee);
                    lemma_session_lookup_push(
                        olds_s,
                        session,
                        company,
                        employee,
                        e.total_sessions_count as int,
                    );
                    assert forall|k: int|
                        0 <= k < self.companies@.len() implies (
                        #[trigger] self.companies@[k]).employee_count == count_employees_of(
                        news_e,
                        self.companies@[k].owner,
                    ) by {
                        assert(old(self).companies@[k].employee_count == count_employees_of(
                            olds_e,
                            old(self).companies@[k].owner,
                        ));
                        lemma_count_update(olds_e, j as int, updated, self.companies@[k].owner);
                    }
                    assert forall|k: int|
                        0 <= k < news_e.len() implies self.employee_valid(
                        #[trigger] news_e[k],
                    ) by {
                        if k != j {
                            assert(news_e[k] == olds_e[k]);
                        }
                        assert(old(self).employee_valid(olds_e[k]));
                    }
                    assert forall|k: int|
                        0 <= k < news_s.len() implies self.session_valid(
                        #[trigger] news_s[k],
                    ) by {
                        if k < olds_s.len() {
                            let t = olds_s[k];
                            assert(news_s[k] == t);
                            assert(old(self).session_valid(t));
                            lemma_employee_lookup_update(
                                olds_e,
                                j as int,
                                updated,
                                t.company,
                                t.employee,
                            );
                            let w = employee_index(olds_e, t.company, t.employee);
                            if t.company == company && t.employee == employee {
                                assert(w == j);
                                assert(employee_record(news_e, company, employee) == updated);
                                if Self::session_open(t) {
                                    assert(olds_e[j as int].is_clocked_in);
                                }
                            } else {
                                if w != j {
                                    assert(news_e[w] == olds_e[w]);
                                }
                                assert(!(olds_e[w].company == olds_e[j as int].company
                                    && olds_e[w].employee == olds_e[j as int].employee));
                            }
                            lemma_session_lookup_push(
                                olds_s,
                                session,
                                t.company,
                                t.employee,
                                t.session_id as int,
                            );
                        } else {
                            assert(news_s[k] == session);
                            assert(employee_record(news_e, company, employee) == updated);
                        }
                    }
                    assert forall|k: int|
                        0 <= k < news_e.len() implies ((#[trigger] news_e[k]).is_clocked_in ==> {
                        &&& news_e[k].total_sessions_count >= 1
                        &&& self.has_session(
                            news_e[k].company,
                            news_e[k].employee,
                            news_e[k].total_sessions_count - 1,
                        )
                        &&& Self::session_open(
                            self.session_at(
                                news_e[k].company,
                                news_e[k].employee,
                                news_e[k].total_sessions_count - 1,
                            ),
                        )
                    }) by {
                        if k == j {
                            lemma_session_lookup_push(
                                olds_s,
                                session,
                                company,
                                employee,
                                e.total_sessions_count as int,
                            );
                            assert(session_record(
                                news_s,
                                company,
                                employee,
                                e.total_sessions_count as int,
                            ) == session);
                        } else {
                            assert(news_e[k] == olds_e[k]);
                            if olds_e[k].is_clocked_in {
                                assert(old(self).has_session(
                                    olds_e[k].company,
                                    olds_e[k].employee,
                                    olds_e[k].total_sessions_count - 1,
                                ));
                                assert(!(olds_e[k].company == olds_e[j as int].company
                                    && olds_e[k].employee == olds_e[j as int].employee));
                                lemma_session_lookup_push(
                                    olds_s,
                                    session,
                                    olds_e[k].company,
                                    olds_e[k].employee,
                                    olds_e[k].total_sessions_count - 1,
                                );
                                let w = session_index(
                                    olds_s,
                                    olds_e[k].company,
                                    olds_e[k].employee,
                                    olds_e[k].total_sessions_count - 1,
                                );
                                assert(news_s[w] == olds_s[w]);
                            }
                        }
                    }
                    assert(self.wf());
                }
                Ok(
                    EmployeeClockedIn {
                        employee,
                        company,
                        clock_in_time: now,
                        session_id: e.total_sessions_count,
                    },
                )
            },
        }
    }
    /// Closes the open work session of the employee keyed by
    /// (`company`, `employee`) at time `now`. Only the employee may
    /// clock out, only from the clocked-in state, and only to a time
    /// strictly after the clock-in time (`InvalidInterval` behaviour:
    /// zero or negative duration fails with `InvalidClockOutTime`).
    /// The worked duration is converted to hundredths of an hour by
    /// the pinned rounding rule, the session amount is the truncated
    /// rate product, and both are added to the record's cumulative
    /// totals by checked addition; all updates land together or not at
    /// all. On success the one `EmployeeClockedOut` event is returned.
    pub fn clock_out(
        &mut self,
        company: AccountId,
        employee: AccountId,
        caller: AccountId,
        now: Timestamp,
    ) -> (r: Result<EmployeeClockedOut, StreamPayError>)
        requires
            old(self).wf(),
        ensures
            final(self).wf(),
            final(self).companies@ == old(self).companies@,
            r is Ok <==> ({
                let e = old(self).employee_at(company, employee);
                let s = old(self).session_at(company, employee, e.total_sessions_count - 1);
                let h = centi_hours_of((now - s.clock_in_time) as u64);
                let amt = earnings_of(e.hourly_rate, h as u64);
                &&& old(self).has_employee(company, employee)
                &&& caller == employee
                &&& e.is_clocked_in
                &&& now > s.clock_in_time
                &&& amt <= u64::MAX
                &&& e.total_hours_worked + h <= u64::MAX
                &&& e.total_earned + amt <= u64::MAX
            }),
            match r {
                Ok(ev) => ({
                    let e = old(self).employee_at(company, employee);
                    let s = old(self).session_at(company, employee, e.total_sessions_count - 1);
                    let h = centi_hours_of((now - s.clock_in_time) as u64);
                    let amt = earnings_of(e.hourly_rate, h as u64);
                    &&& final(self).sessions@ == old(self).sessions@.update(
                        session_index(
                            old(self).sessions@,
                            company,
                            employee,
                            e.total_sessions_count - 1,
                        ),
                        (WorkSession {
                            company,
                            employee,
                            clock_in_time: s.clock_in_time,
                            clock_out_time: now,
                            hours_worked: h as u64,
                            amount_earned: amt as u64,
                            session_id: s.session_id,
                        }),
                    )
                    &&& final(self).employees@ == old(self).employees@.update(
                        employee_index(old(self).employees@, company, employee),
                        (Employee {
                            company: e.company,
                            employee: e.employee,
                            hourly_rate: e.hourly_rate,
                            total_hours_worked: (e.total_hours_worked + h) as u64,
                            last_clock_in: e.last_clock_in,
                            is_clocked_in: false,
                            total_withdrawn: e.total_withdrawn,
                            total_earned: (e.total_earned + amt) as u64,
                            created_at: e.created_at,
                            total_sessions_count: e.total_sessions_count,
                        }),
                    )
                    &&& ev == (EmployeeClockedOut {
                        employee,
                        company,
                        clock_out_time: now,
                        hours_worked: h as u64,
                        amount_earned: amt as u64,
                        session_id: s.session_id,
                    })
                }),
                Err(err) => ({
                    let e = old(self).employee_at(company, employee);
                    let s = old(self).session_at(company, employee, e.total_sessions_count - 1);
                    let h = centi_hours_of((now - s.clock_in_time) as u64);
                    let amt = earnings_of(e.hourly_rate, h as u64);
                    &&& final(self).employees@ == old(self).employees@
                    &&& final(self).sessions@ == old(self).sessions@
                    &&& if !old(self).has_employee(company, employee) {
                        err == StreamPayError::NotFound
                    } else if caller != employee {
                        err == StreamPayError::UnauthorizedEmployeeAccess
                    } else if !e.is_clocked_in {
                        err == StreamPayError::NotClockedIn
                    } else if now <= s.clock_in_time {
                        err == StreamPayError::InvalidClockOutTime
                    } else {
                        err == StreamPayError::Overflow && (amt > u64::MAX
                            || e.total_hours_worked + h > u64::MAX || e.total_earned + amt
                            > u64::MAX)
                    }
                }),
            },
    {
        match find_employee(&self.employees, company, employee) {
            None => {
                proof {
                    assert(!self.has_employee(company, employee));
                }
                Err(StreamPayError::NotFound)
            },
            Some(j) => {
                proof {
                    lemma_employee_index(self.employees@, j as int);
                }
                if !authorize(caller, employee) {
                    return Err(StreamPayError::UnauthorizedEmployeeAccess);
                }
                let e = self.employees[j];
                if !e.is_clocked_in {
                    return Err(StreamPayError::NotClockedIn);
                }
                proof {
                    assert(self.employees@[j as int].is_clocked_in);
                }
                let sid = e.total_sessions_count - 1;
                let sidx = match find_session(&self.sessions, company, employee, sid) {
                    Some(si) => si,
                    None => {
                        proof {
                            let w = session_index(self.sessions@, company, employee, sid as int);
                            assert(0 <= w < self.sessions@.len() && self.sessions@[w].company
                                == company && self.sessions@[w].employee == employee
                                && self.sessions@[w].session_id == sid);
                            assert(false);
                        }
                        vstd::pervasive::unreached()
                    },
                };
                proof {
                    lemma_session_index(self.sessions@, sidx as int);
                }
                let s = self.sessions[sidx];
                if now <= s.clock_in_time {
                    return Err(StreamPayError::InvalidClockOutTime);
                }
                let duration = now - s.clock_in_time;
                let h = centi_hours(duration);
                let amt = match calculate_earnings(e.hourly_rate, h) {
                    Ok(a) => a,
                    Err(_) => {
                        return Err(StreamPayError::Overflow);
                    },
                };
                if e.total_hours_worked > u64::MAX - h {
                    return Err(StreamPayError::Overflow);
                }
                if e.total_earned > u64::MAX - amt {
                    return Err(StreamPayError::Overflow);
                }
                let closed = WorkSession {
                    company: s.company,
                    employee: s.employee,
                    clock_in_time: s.clock_in_time,
                    clock_out_time: now,
                    hours_worked: h,
                    amount_earned: amt,
                    session_id: s.session_id,
                };
                let updated = Employee {
                    company: e.company,
                    employee: e.employee,
                    hourly_rate: e.hourly_rate,
                    total_hours_worked: e.total_hours_worked + h,
                    last_clock_in: e.last_clock_in,
                    is_clocked_in: false,
                    total_withdrawn: e.total_withdrawn,
                    total_earned: e.total_earned + amt,
                    created_at: e.created_at,
                    total_sessions_count: e.total_sessions_count,
                };
                self.sessions[sidx] = closed;
                self.employees[j] = updated;
                proof {
                    let olds_e = old(self).employees@;
                    let news_e = self.employees@;
                    let olds_s = old(self).sessions@;
                    let news_s = self.sessions@;
                    assert(news_e == olds_e.update(j as int, updated));
                    assert(news_s == olds_s.update(sidx as int, closed));
                    lemma_employee_lookup_update(olds_e, j as int, updated, company, employee);
                    lemma_session_lookup_update(
                        olds_s,
                        sidx as int,
                        closed,
                        company,
                        employee,
                        sid as int,
                    );
                    assert forall|k: int|
                        0 <= k < self.companies@.len() implies (
                        #[trigger] self.companies@[k]).employee_count == count_employees_of(
                        news_e,
                        self.companies@[k].owner,
                    ) by {
                        assert(old(self).companies@[k].employee_count == count_employees_of(
                            olds_e,
                            old(self).companies@[k].owner,
                        ));
                        lemma_count_update(olds_e, j as int, updated, self.companies@[k].owner);
                    }
                    assert forall|k: int|
                        0 <= k < news_e.len() implies self.employee_valid(
                        #[trigger] news_e[k],
                    ) by {
                        if k != j {
                            assert(news_e[k] == olds_e[k]);
                        }
                        assert(old(self).employee_valid(olds_e[k]));
                    }
                    assert forall|k: int|
                        0 <= k < news_s.len() implies self.session_valid(
                        #[trigger] news_s[k],
                    ) by {
                        if k == sidx {
                            assert(employee_record(news_e, company, employee) == updated);
                            assert(!Self::session_open(closed));
                        } else {
                            let t = olds_s[k];
                            assert(news_s[k] == t);
                            assert(old(self).session_valid(t));
                            if t.company == company && t.employee == employee {
                                if Self::session_open(t) {
                                    assert(t.session_id == sid);
                                    assert(!(olds_s[k].company == olds_s[sidx as int].company
                                        && olds_s[k].employee == olds_s[sidx as int].employee
                                        && olds_s[k].session_id
                                        == olds_s[sidx as int].session_id));
                                }
                                assert(employee_record(news_e, company, employee) == updated);
                            } else {
                                lemma_employee_lookup_update(
                                    olds_e,
                                    j as int,
                                    updated,
                                    t.company,
                                    t.employee,
                                );
                                let w = employee_index(olds_e, t.company, t.employee);
                                assert(!(olds_e[w].company == olds_e[j as int].company
                                    && olds_e[w].employee == olds_e[j as int].employee));
                                assert(news_e[w] == olds_e[w]);
                            }
                        }
                    }
                    assert forall|k: int|
                        0 <= k < news_e.len() implies ((#[trigger] news_e[k]).is_clocked_in ==> {
                        &&& news_e[k].total_sessions_count >= 1
                        &&& self.has_session(
                            news_e[k].company,
                            news_e[k].employee,
                            news_e[k].total_sessions_count - 1,
                        )
                        &&& Self::session_open(
                            self.session_at(
                                news_e[k].company,
                                news_e[k].employee,
                                news_e[k].total_sessions_count - 1,
                            ),
                        )
                    }) by {
                        if k != j {
                            assert(news_e[k] == olds_e[k]);
                            if olds_e[k].is_clocked_in {
                                assert(old(self).has_session(
                                    olds_e[k].company,
                                    olds_e[k].employee,
                                    olds_e[k].total_sessions_count - 1,
                                ));
                                assert(!(olds_e[k].company == olds_e[j as int].company
                                    && olds_e[k].employee == olds_e[j as int].employee));
                                lemma_session_lookup_update(
                                    olds_s,
                                    sidx as int,
                                    closed,
                                    olds_e[k].company,
                                    olds_e[k].employee,
                                    olds_e[k].total_sessions_count - 1,
                                );
                                let w = session_index(
                                    olds_s,
                                    olds_e[k].company,
                                    olds_e[k].employee,
                                    olds_e[k].total_sessions_count - 1,
                                );
                                assert(w != sidx);
                                assert(news_s[w] == olds_s[w]);
                            }
                        }
                    }
                    assert(self.wf());
                }
                Ok(
                    EmployeeClockedOut {
                        employee,
                        company,
                        clock_out_time: now,
                        hours_worked: h,
                        amount_earned: amt,
                        session_id: s.session_id,
                    },
                )
            },
        }
    }

    /// Withdraws `amount` monetary units of the earned balance of the
    /// employee keyed by (`company`, `employee`). Only the employee may
    /// withdraw, the amount must be positive, and it must not exceed
    /// the available balance (`total_earned - total_withdrawn`). The
    /// funds-custody collaborator moves the actual value before the
    /// ledger is updated. On success the one `EarningsWithdrawn` event
    /// is returned.
    pub fn withdraw_earnings(
        &mut self,
        company: AccountId,
        employee: AccountId,
        caller: AccountId,
        amount: u64,
        now: Timestamp,
    ) -> (r: Result<EarningsWithdrawn, StreamPayError>)
        requires
            old(self).wf(),
        ensures
            final(self).wf(),
            final(self).companies@ == old(self).companies@,
            final(self).sessions@ == old(self).sessions@,
            r is Ok <==> ({
                let e = old(self).employee_at(company, employee);
                &&& old(self).has_employee(company, employee)
                &&& caller == employee
                &&& amount > 0
                &&& amount <= e.total_earned - e.total_withdrawn
            }),
            match r {
                Ok(ev) => ({
                    let e = old(self).employee_at(company, employee);
                    &&& final(self).employees@ == old(self).employees@.update(
                        employee_index(old(self).employees@, company, employee),
                        (Employee {
                            company: e.company,
                            employee: e.employee,
                            hourly_rate: e.hourly_rate,
                            total_hours_worked: e.total_hours_worked,
                            last_clock_in: e.last_clock_in,
                            is_clocked_in: e.is_clocked_in,
                            total_withdrawn: (e.total_withdrawn + amount) as u64,
                            total_earned: e.total_earned,
                            created_at: e.created_at,
                            total_sessions_count: e.total_sessions_count,
                        }),
                    )
                    &&& ev == (EarningsWithdrawn {
                        employee,
                        company,
                        amount,
                        remaining_balance: (e.total_earned - e.total_withdrawn - amount) as u64,
                        timestamp: now,
                    })
                }),
                Err(err) => ({
                    let e = old(self).employee_at(company, employee);
                    &&& final(self).employees@ == old(self).employees@
                    &&& if !old(self).has_employee(company, employee) {
                        err == StreamPayError::NotFound
                    } else if caller != employee {
                        err == StreamPayError::UnauthorizedEmployeeAccess
                    } else if amount == 0 {
                        err == StreamPayError::InvalidWithdrawAmount
                    } else {
                        err == StreamPayError::InsufficientBalance && amount > e.total_earned
                            - e.total_withdrawn
                    }
                }),
            },
    {
        match find_employee(&self.employees, company, employee) {
            None => {
                proof {
                    assert(!self.has_employee(company, employee));
                }
                Err(StreamPayError::NotFound)
            },
            Some(j) => {
                proof {
                    lemma_employee_index(self.employees@, j as int);
                }
                if !authorize(caller, employee) {
                    return Err(StreamPayError::UnauthorizedEmployeeAccess);
                }
                if amount == 0 {
                    return Err(StreamPayError::InvalidWithdrawAmount);
                }
                let e = self.employees[j];
                proof {
                    assert(self.employee_valid(self.employees@[j as int]));
                }
                let available = e.total_earned - e.total_withdrawn;
                if amount > available {
                    return Err(StreamPayError::InsufficientBalance);
                }
                let updated = Employee {
                    company: e.company,
                    employee: e.employee,
                    hourly_rate: e.hourly_rate,
                    total_hours_worked: e.total_hours_worked,
                    last_clock_in: e.last_clock_in,
                    is_clocked_in: e.is_clocked_in,
                    total_withdrawn: e.total_withdrawn + amount,
                    total_earned: e.total_earned,
                    created_at: e.created_at,
                    total_sessions_count: e.total_sessions_count,
                };
                self.employees[j] = updated;
                proof {
                    let olds_e = old(self).employees@;
                    let news_e = self.employees@;
                    assert(news_e == olds_e.update(j as int, updated));
                    lemma_employee_lookup_update(olds_e, j as int, updated, company, employee);
                    assert forall|k: int|
                        0 <= k < self.companies@.len() implies (
                        #[trigger] self.companies@[k]).employee_count == count_employees_of(
                        news_e,
                        self.companies@[k].owner,
                    ) by {
                        assert(old(self).companies@[k].employee_count == count_employees_of(
                            olds_e,
                            old(self).companies@[k].owner,
                        ));
                        lemma_count_update(olds_e, j as int, updated, self.companies@[k].owner);
                    }
                    assert forall|k: int|
                        0 <= k < news_e.len() implies self.employee_valid(
                        #[trigger] news_e[k],
                    ) by {
                        if k != j {
                            assert(news_e[k] == olds_e[k]);
                        }
                        assert(old(self).employee_valid(olds_e[k]));
                    }
                    assert forall|k: int|
                        0 <= k < self.sessions@.len() implies self.session_valid(
                        #[trigger] self.sessions@[k],
                    ) by {
                        let t = self.sessions@[k];
                        assert(old(self).session_valid(t));
                        if t.company == company && t.employee == employee {
                            assert(employee_record(news_e, company, employee) == updated);
                        } else {
                            lemma_employee_lookup_update(
                                olds_e,
                                j as int,
                                updated,
                                t.company,
                                t.employee,
                            );
                            let w = employee_index(olds_e, t.company, t.employee);
                            assert(!(olds_e[w].company == olds_e[j as int].company && olds_e[w].employee
                                == olds_e[j as int].employee));
                            assert(news_e[w] == olds_e[w]);
                        }
                    }
                    assert forall|k: int|
                        0 <= k < news_e.len() implies ((#[trigger] news_e[k]).is_clocked_in ==> {
                        &&& news_e[k].total_sessions_count >= 1
                        &&& self.has_session(
                            news_e[k].company,
                            news_e[k].employee,
                            news_e[k].total_sessions_count - 1,
                        )
                        &&& Self::session_open(
                            self.session_at(
                                news_e[k].company,
                                news_e[k].employee,
                                news_e[k].total_sessions_count - 1,
                            ),
                        )
                    }) by {
                        if k != j {
                            assert(news_e[k] == olds_e[k]);
                        } else {
                            assert(news_e[k].company == olds_e[k].company && news_e[k].employee
                                == olds_e[k].employee && news_e[k].total_sessions_count
                                == olds_e[k].total_sessions_count && news_e[k].is_clocked_in
                                == olds_e[k].is_clocked_in);
                        }
                        assert(olds_e[k].is_clocked_in ==> old(self).has_session(
                            olds_e[k].company,
                            olds_e[k].employee,
                            olds_e[k].total_sessions_count - 1,
                        ));
                    }
                    assert(self.wf());
                }
                Ok(
                    EarningsWithdrawn {
                        employee,
                        company,
                        amount,
                        remaining_balance: available - amount,
                        timestamp: now,
                    },
                )
            },
        }
    }

    /// Read-only view of the available balance
    /// (`total_earned - total_withdrawn`) of the employee keyed by
    /// (`company`, `employee`). Only the employee may read it. No state
    /// changes. A well-formed ledger has `total_withdrawn <=
    /// total_earned` for every record, so the subtraction cannot
    /// underflow and no arithmetic failure can arise here.
    pub fn get_available_balance(
        &self,
        company: AccountId,
        employee: AccountId,
        caller: AccountId,
    ) -> (r: Result<u64, StreamPayError>)
        requires
            self.wf(),
        ensures
            r is Ok <==> (self.has_employee(company, employee) && caller == employee),
            match r {
                Ok(balance) => balance == self.employee_at(company, employee).total_earned
                    - self.employee_at(company, employee).total_withdrawn,
                Err(err) => if !self.has_employee(company, employee) {
                    err == StreamPayError::NotFound
                } else {
                    err == StreamPayError::UnauthorizedEmployeeAccess
                },
            },
    {
        match find_employee(&self.employees, company, employee) {
            None => {
                proof {
                    assert(!self.has_employee(company, employee));
                }
                Err(StreamPayError::NotFound)
            },
            Some(j) => {
                proof {
                    lemma_employee_index(self.employees@, j as int);
                    assert(self.employee_valid(self.employees@[j as int]));
                }
                if !authorize(caller, employee) {
                    return Err(StreamPayError::UnauthorizedEmployeeAccess);
                }
                let e = &self.employees[j];
                Ok(e.total_earned - e.total_withdrawn)
            },
        }
    }

    /// Read-only lookup of the company record keyed by `owner`.
    pub fn get_company(&self, owner: AccountId) -> (r: Option<&Company>)
        requires
            self.wf(),
        ensures
            match r {
                Some(c) => self.has_company(owner) && *c == self.company_at(owner),
                None => !self.has_company(owner),
            },
    {
        match find_company(&self.companies, owner) {
            Some(i) => {
                proof {
                    lemma_company_index(self.companies@, i as int);
                }
                Some(&self.companies[i])
            },
            None => {
                proof {
                    assert(!self.has_company(owner));
                }
                None
            },
        }
    }

    /// Read-only lookup of the employee record keyed by (`company`,
    /// `employee`).
    pub fn get_employee(&self, company: AccountId, employee: AccountId) -> (r: Option<&Employee>)
        requires
            self.wf(),
        ensures
            match r {
                Some(e) => self.has_employee(company, employee) && *e == self.employee_at(
                    company,
                    employee,
                ),
                None => !self.has_employee(company, employee),
            },
    {
        match find_employee(&self.employees, company, employee) {
            Some(i) => {
                proof {
                    lemma_employee_index(self.employees@, i as int);
                }
                Some(&self.employees[i])
            },
            None => {
                proof {
                    assert(!self.has_employee(company, employee));
                }
                None
            },
        }
    }

    /// Read-only lookup of the session keyed by (`company`,
    /// `employee`, `session_id`).
    pub fn get_work_session(
        &self,
        company: AccountId,
        employee: AccountId,
        session_id: u64,
    ) -> (r: Option<&WorkSession>)
        requires
            self.wf(),
        ensures
            match r {
                Some(s) => self.has_session(company, employee, session_id as int) && *s
                    == self.session_at(company, employee, session_id as int),
                None => !self.has_session(company, employee, session_id as int),
            },
    {
        match find_session(&self.sessions, company, employee, session_id) {
            Some(i) => {
                proof {
                    lemma_session_index(self.sessions@, i as int);
                }
                Some(&self.sessions[i])
            },
            None => {
                proof {
                    assert(!self.has_session(company, employee, session_id as int));
                }
                None
            },
        }
    }
}

/// Linear scan for the company record keyed by `owner`.
fn find_company(v: &Vec<Company>, owner: AccountId) -> (r: Option<usize>)
    ensures
        match r {
            Some(i) => i < v@.len() && v@[i as int].owner == owner,
            None => forall|k: int| 0 <= k < v@.len() ==> v@[k].owner != owner,
        },
{
    let mut i: usize = 0;
    while i < v.len()
        invariant
            i <= v@.len(),
            forall|k: int| 0 <= k < i ==> v@[k].owner != owner,
        decreases v@.len() - i,
    {
        let c = &v[i];
        if c.owner == owner {
            return Some(i);
        }
        i = i + 1;
    }
    None
}

/// Linear scan for the employee record keyed by (`company`, `employee`).
fn find_employee(v: &Vec<Employee>, company: AccountId, employee: AccountId) -> (r: Option<usize>)
    ensures
        match r {
            Some(i) => i < v@.len() && v@[i as int].company == company && v@[i as int].employee
                == employee,
            None => forall|k: int|
                0 <= k < v@.len() ==> !(v@[k].company == company && v@[k].employee == employee),
        },
{
    let mut i: usize = 0;
    while i < v.len()
        invariant
            i <= v@.len(),
            forall|k: int| 0 <= k < i ==> !(v@[k].company == company && v@[k].employee == employee),
        decreases v@.len() - i,
    {
        let e = &v[i];
        if e.company == company && e.employee == employee {
            return Some(i);
        }
        i = i + 1;
    }
    None
}

/// Linear scan for the session keyed by (`company`, `employee`,
/// `session_id`).
fn find_session(
    v: &Vec<WorkSession>,
    company: AccountId,
    employee: AccountId,
    session_id: u64,
) -> (r: Option<usize>)
    ensures
        match r {
            Some(i) => i < v@.len() && v@[i as int].company == company && v@[i as int].employee
                == employee && v@[i as int].session_id == session_id,
            None => forall|k: int|
                0 <= k < v@.len() ==> !(v@[k].company == company && v@[k].employee == employee
                    && v@[k].session_id == session_id),
        },
{
    let mut i: usize = 0;
    while i < v.len()
        invariant
            i <= v@.len(),
            forall|k: int|
                0 <= k < i ==> !(v@[k].company == company && v@[k].employee == employee
                    && v@[k].session_id == session_id),
        decreases v@.len() - i,
    {
        let s = &v[i];
        if s.company == company && s.employee == employee && s.session_id == session_id {
            return Some(i);
        }
        i = i + 1;
    }
    None
}

} // verus!

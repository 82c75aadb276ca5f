//! Building and editing a trip: adding and queueing the removal of expenses,
//! days and people, and toggling serving and attendance flags. Every edit
//! marks the derived values it can affect as stale.
use vstd::prelude::*;
use vstd::string::StringExecFns;

use crate::allocation::{lemma_price_prefix, price_sum};
use crate::calc::MoekkiCalcApp;
use crate::types::{Attendance, Day, Expense, Meal, Person};

verus! {

/// The decimal digit `d`.
pub open spec fn digit(d: nat) -> char {
    seq!['0', '1', '2', '3', '4', '5', '6', '7', '8', '9'][d as int]
}

/// `n` written in decimal, without leading zeros.
pub open spec fn decimal(n: nat) -> Seq<char>
    decreases n,
{
    if n < 10 {
        seq![digit(n)]
    } else {
        decimal(n / 10).push(digit(n % 10))
    }
}

/// The decimal digit `d`, as text.
fn digit_text(d: usize) -> (r: &'static str)
    requires
        d < 10,
    ensures
        r@ == seq![digit(d as nat)],
{
    match d {
        0 => {
            proof {
                reveal_strlit("0");
            }
            "0"
        },
        1 => {
            proof {
                reveal_strlit("1");
            }
            "1"
        },
        2 => {
            proof {
                reveal_strlit("2");
            }
            "2"
        },
        3 => {
            proof {
                reveal_strlit("3");
            }
            "3"
        },
        4 => {
            proof {
                reveal_strlit("4");
            }
            "4"
        },
        5 => {
            proof {
                reveal_strlit("5");
            }
            "5"
        },
        6 => {
            proof {
                reveal_strlit("6");
            }
            "6"
        },
        7 => {
            proof {
                reveal_strlit("7");
            }
            "7"
        },
        8 => {
            proof {
                reveal_strlit("8");
            }
            "8"
        },
        _ => {
            proof {
                reveal_strlit("9");
            }
            "9"
        },
    }
}

/// `n` written in decimal.
fn decimal_label(n: usize) -> (r: String)
    ensures
        r@ == decimal(n as nat),
    decreases n,
{
    let mut s: String = if n < 10 {
        String::new()
    } else {
        decimal_label(n / 10)
    };
    s.append(digit_text(n % 10));
    proof {
        if n < 10 {
            assert(s@ =~= seq![digit(n as nat)]);
        } else {
            assert(s@ =~= decimal(n as nat / 10).push(digit(n as nat % 10)));
        }
    }
    s
}

/// The sum of what `people` owe.
pub open spec fn cost_sum(people: Seq<Person>) -> nat
    decreases people.len(),
{
    if people.len() == 0 {
        0
    } else {
        cost_sum(people.drop_last()) + people.last().cost as nat
    }
}

/// Everything but the days and the people is as it was.
pub open spec fn keeps_ledger(pre: MoekkiCalcApp, post: MoekkiCalcApp) -> bool {
    &&& post.expenses == pre.expenses
    &&& post.expenses_to_remove == pre.expenses_to_remove
    &&& post.days_to_remove == pre.days_to_remove
    &&& post.people_to_remove == pre.people_to_remove
    &&& post.total_cost == pre.total_cost
    &&& post.total_breakfast_cost == pre.total_breakfast_cost
    &&& post.total_lunch_cost == pre.total_lunch_cost
    &&& post.total_dinner_cost == pre.total_dinner_cost
    &&& post.total_snacks_cost == pre.total_snacks_cost
}

/// An empty trip.
impl Default for MoekkiCalcApp {
    fn default() -> (r: MoekkiCalcApp)
        ensures
            r.wf(),
            r.expenses@.len() == 0,
            r.days@.len() == 0,
            r.people@.len() == 0,
            r.expenses_to_remove@.len() == 0,
            r.days_to_remove@.len() == 0,
            r.people_to_remove@.len() == 0,
            r.total_cost == 0,
            forall|m: Meal| #[trigger] r.subtotal(m) == 0,
            !r.update_attendances,
            !r.update_costs,
    {
        let r = MoekkiCalcApp {
            expenses: Vec::new(),
            expenses_to_remove: Vec::new(),
            total_breakfast_cost: 0,
            total_lunch_cost: 0,
            total_dinner_cost: 0,
            total_snacks_cost: 0,
            total_cost: 0,
            days: Vec::new(),
            days_to_remove: Vec::new(),
            people: Vec::new(),
            people_to_remove: Vec::new(),
            update_attendances: false,
            update_costs: false,
        };
        assert(r.expenses@ =~= Seq::<Expense>::empty());
        r
    }
}

impl MoekkiCalcApp {
    /// Appends a day named by its position (counting from one) that serves
    /// every meal, and gives every person a matching attendance record: not
    /// present, every meal selected.
    pub fn add_day(&mut self)
        requires
            old(self).wf(),
            old(self).days@.len() < usize::MAX,
        ensures
            final(self).wf(),
            keeps_ledger(*old(self), *final(self)),
            final(self).days@.len() == old(self).days@.len() + 1,
            final(self).days@.drop_last() == old(self).days@,
            final(self).days@.last().name@ == decimal(old(self).days@.len() + 1),
            forall|m: Meal| #[trigger] final(self).days@.last().servings.has(m),
            forall|m: Meal| #[trigger] final(self).days@.last().rate(m) == 0 && final(self).days@.last().attendees(m) == 0,
            final(self).days@.last().total_day_rate == 0,
            final(self).people@.len() == old(self).people@.len(),
            forall|k: int|
                0 <= k < old(self).people@.len() ==> {
                    &&& (#[trigger] final(self).people@[k]).name == old(self).people@[k].name
                    &&& final(self).people@[k].cost == old(self).people@[k].cost
                    &&& final(self).people@[k].attendance@.len() == old(self).people@[k].attendance@.len() + 1
                    &&& final(self).people@[k].attendance@.drop_last() == old(self).people@[k].attendance@
                    &&& final(self).people@[k].attendance@.last().day_name@ == decimal(old(self).days@.len() + 1)
                    &&& !final(self).people@[k].attendance@.last().present
                    &&& forall|m: Meal| #[trigger] final(self).people@[k].attendance@.last().servings.has(m)
                },
            final(self).update_attendances,
            final(self).update_costs,
    {
        let ghost pre = *self;
        let label: String = decimal_label(self.days.len() + 1);
        self.days.push(Day::new(label.clone()));
        let ghost added = self.days@;
        assert(added.drop_last() =~= pre.days@);
        let mut k: usize = 0;
        while k < self.people.len()
            invariant
                k <= self.people@.len(),
                self.people@.len() == pre.people@.len(),
                self.days@ == added,
                added.drop_last() == pre.days@,
                added.len() == pre.days@.len() + 1,
                added.last().name@ == label@,
                forall|m: Meal| #[trigger] added.last().servings.has(m),
                forall|m: Meal| #[trigger] added.last().rate(m) == 0 && added.last().attendees(m) == 0,
                added.last().total_day_rate == 0,
                keeps_ledger(pre, *self),
                pre.wf(),
                label@ == decimal(pre.days@.len() + 1),
                forall|q: int|
                    0 <= q < k ==> {
                        &&& (#[trigger] self.people@[q]).name == pre.people@[q].name
                        &&& self.people@[q].cost == pre.people@[q].cost
                        &&& self.people@[q].attendance@.len() == pre.people@[q].attendance@.len() + 1
                        &&& self.people@[q].attendance@.drop_last() == pre.people@[q].attendance@
                        &&& self.people@[q].attendance@.last().day_name@ == label@
                        &&& !self.people@[q].attendance@.last().present
                        &&& forall|m: Meal| #[trigger] self.people@[q].attendance@.last().servings.has(m)
                    },
                forall|q: int| k <= q < self.people@.len() ==> #[trigger] self.people@[q] == pre.people@[q],
            decreases self.people@.len() - k,
        {
            let a: Attendance = Attendance::new(label.clone());
            self.people[k].attendance.push(a);
            assert(self.people@[k as int].attendance@.drop_last() =~= pre.people@[k as int].attendance@);
            k = k + 1;
        }
        assert forall|q: int| 0 <= q < self.people@.len() implies (#[trigger] self.people@[q]).attendance@.len() == self.days@.len() by {
            assert(pre.people@[q].attendance@.len() == pre.days@.len());
        }
        self.update_attendances = true;
        self.update_costs = true;
    }

    /// Appends a person named `name`, absent from every day. Refused, with
    /// nothing changed, where the name is empty.
    pub fn add_person(&mut self, name: String) -> (r: bool)
        requires
            old(self).wf(),
        ensures
            final(self).wf(),
            r == (name@.len() > 0),
            keeps_ledger(*old(self), *final(self)),
            final(self).days == old(self).days,
            final(self).update_attendances == old(self).update_attendances,
            r ==> {
                &&& final(self).people@.len() == old(self).people@.len() + 1
                &&& final(self).people@.drop_last() == old(self).people@
                &&& final(self).people@.last().name@ == name@
                &&& final(self).people@.last().cost == 0
                &&& forall|j: int|
                    0 <= j < old(self).days@.len() ==> {
                        &&& (#[trigger] final(self).people@.last().attendance@[j]).day_name@ == old(self).days@[j].name@
                        &&& !final(self).people@.last().attendance@[j].present
                        &&& forall|m: Meal| #[trigger] final(self).people@.last().attendance@[j].servings.has(m)
                    }
                &&& final(self).update_costs
            },
            !r ==> final(self).people == old(self).people && final(self).update_costs == old(self).update_costs,
    {
        if name.as_str().is_empty() {
            return false;
        }
        let p: Person = Person::new(name, self.days.as_slice());
        self.people.push(p);
        assert(self.people@.drop_last() =~= old(self).people@);
        self.update_costs = true;
        true
    }

    /// Appends an expense assigned to no meal yet. Refused, with nothing
    /// changed, where the name is empty, the price is zero, or the prices
    /// would no longer add up to an amount that fits in a `u64`.
    pub fn add_expense(&mut self, name: String, price: u64) -> (r: bool)
        requires
            old(self).wf(),
        ensures
            final(self).wf(),
            r == (name@.len() > 0 && price > 0 && price_sum(old(self).expenses@) + price <= u64::MAX),
            final(self).days == old(self).days,
            final(self).people == old(self).people,
            final(self).expenses_to_remove == old(self).expenses_to_remove,
            final(self).days_to_remove == old(self).days_to_remove,
            final(self).people_to_remove == old(self).people_to_remove,
            final(self).update_attendances == old(self).update_attendances,
            r ==> {
                &&& final(self).expenses@.len() == old(self).expenses@.len() + 1
                &&& final(self).expenses@.drop_last() == old(self).expenses@
                &&& final(self).expenses@.last().name@ == name@
                &&& final(self).expenses@.last().price == price
                &&& forall|m: Meal| !(#[trigger] final(self).expenses@.last().serving_type.has(m))
                &&& final(self).update_costs
            },
            !r ==> final(self).expenses == old(self).expenses && final(self).update_costs == old(self).update_costs,
    {
        if name.as_str().is_empty() || price == 0 {
            return false;
        }
        let sum: u64 = self.price_total();
        if sum > u64::MAX - price {
            return false;
        }
        let ghost before = self.expenses@;
        self.expenses.push(Expense::new(name, price));
        assert(self.expenses@.drop_last() =~= before);
        self.update_costs = true;
        true
    }

    /// The sum of the expense prices.
    pub fn price_total(&self) -> (r: u64)
        requires
            self.wf(),
        ensures
            r == price_sum(self.expenses@),
    {
        let mut total: u64 = 0;
        let mut i: usize = 0;
        while i < self.expenses.len()
            invariant
                i <= self.expenses@.len(),
                self.wf(),
                total == price_sum(self.expenses@.take(i as int)),
            decreases self.expenses@.len() - i,
        {
            proof {
                assert(self.expenses@.take(i + 1).drop_last() =~= self.expenses@.take(i as int));
                lemma_price_prefix(self.expenses@, i + 1);
            }
            total = total + self.expenses[i].price;
            i = i + 1;
        }
        assert(self.expenses@.take(i as int) =~= self.expenses@);
        total
    }

    /// Whether the state holds together: one attendance record per day for
    /// every person, and prices that add up to an amount that fits in a `u64`.
    pub fn is_consistent(&self) -> (r: bool)
        ensures
            r == self.wf(),
    {
        let mut k: usize = 0;
        while k < self.people.len()
            invariant
                k <= self.people@.len(),
                forall|q: int| 0 <= q < k ==> (#[trigger] self.people@[q]).attendance@.len() == self.days@.len(),
            decreases self.people@.len() - k,
        {
            if self.people[k].attendance.len() != self.days.len() {
                return false;
            }
            k = k + 1;
        }
        let mut total: u64 = 0;
        let mut i: usize = 0;
        while i < self.expenses.len()
            invariant
                i <= self.expenses@.len(),
                total == price_sum(self.expenses@.take(i as int)),
                forall|q: int| 0 <= q < self.people@.len() ==> (#[trigger] self.people@[q]).attendance@.len() == self.days@.len(),
            decreases self.expenses@.len() - i,
        {
            proof {
                assert(self.expenses@.take(i + 1).drop_last() =~= self.expenses@.take(i as int));
                lemma_price_prefix(self.expenses@, i + 1);
            }
            let p: u64 = self.expenses[i].price;
            if total > u64::MAX - p {
                return false;
            }
            total = total + p;
            i = i + 1;
        }
        assert(self.expenses@.take(i as int) =~= self.expenses@);
        true
    }

    /// What all people owe together, or `None` where that does not fit in a
    /// `u64`.
    pub fn covered_cost(&self) -> (r: Option<u64>)
        ensures
            r == if cost_sum(self.people@) <= u64::MAX {
                Some(cost_sum(self.people@) as u64)
            } else {
                None::<u64>
            },
    {
        let mut total: u64 = 0;
        let mut k: usize = 0;
        while k < self.people.len()
            invariant
                k <= self.people@.len(),
                total == cost_sum(self.people@.take(k as int)),
            decreases self.people@.len() - k,
        {
            assert(self.people@.take(k + 1).drop_last() =~= self.people@.take(k as int));
            let c: u64 = self.people[k].cost;
            if total > u64::MAX - c {
                proof {
                    self.lemma_cost_prefix(k + 1);
                }
                return None;
            }
            total = total + c;
            k = k + 1;
        }
        assert(self.people@.take(k as int) =~= self.people@);
        Some(total)
    }

    proof fn lemma_cost_prefix(self, n: int)
        requires
            0 <= n <= self.people@.len(),
        ensures
            cost_sum(self.people@.take(n)) <= cost_sum(self.people@),
        decreases self.people@.len() - n,
    {
        if n < self.people@.len() {
            assert(self.people@.take(n + 1).drop_last() =~= self.people@.take(n));
            self.lemma_cost_prefix(n + 1);
        } else {
            assert(self.people@.take(n) =~= self.people@);
        }
    }

    /// Queues the expense at `idx` for removal by the next
    /// `update_removed`.
    pub fn remove_expense(&mut self, idx: usize)
        ensures
            final(self).expenses_to_remove@ == old(self).expenses_to_remove@.push(idx),
            final(self).expenses == old(self).expenses,
            final(self).days == old(self).days,
            final(self).people == old(self).people,
            final(self).days_to_remove == old(self).days_to_remove,
            final(self).people_to_remove == old(self).people_to_remove,
    {
        self.expenses_to_remove.push(idx);
    }

    /// Queues the person at `idx` for removal by the next `update_removed`.
    pub fn remove_person(&mut self, idx: usize)
        ensures
            final(self).people_to_remove@ == old(self).people_to_remove@.push(idx),
            final(self).expenses == old(self).expenses,
            final(self).days == old(self).days,
            final(self).people == old(self).people,
            final(self).days_to_remove == old(self).days_to_remove,
            final(self).expenses_to_remove == old(self).expenses_to_remove,
    {
        self.people_to_remove.push(idx);
    }

    /// Queues the day at `idx`, with every person's attendance record for
    /// it, for removal by the next `update_removed`.
    pub fn remove_day(&mut self, idx: usize)
        ensures
            final(self).days_to_remove@ == old(self).days_to_remove@.push(idx),
            final(self).expenses == old(self).expenses,
            final(self).days == old(self).days,
            final(self).people == old(self).people,
            final(self).people_to_remove == old(self).people_to_remove,
            final(self).expenses_to_remove == old(self).expenses_to_remove,
    {
        self.days_to_remove.push(idx);
    }

    /// Drops every expense, day and person, and the removals queued for them.
    /// The totals become those of an empty trip: zero.
    pub fn reset(&mut self)
        ensures
            final(self).wf(),
            final(self).expenses@.len() == 0,
            final(self).days@.len() == 0,
            final(self).people@.len() == 0,
            final(self).expenses_to_remove@.len() == 0,
            final(self).days_to_remove@.len() == 0,
            final(self).people_to_remove@.len() == 0,
            final(self).total_cost == 0,
            forall|m: Meal| #[trigger] final(self).subtotal(m) == 0,
            final(self).update_attendances,
            final(self).update_costs,
    {
        self.days.clear();
        self.people.clear();
        self.expenses.clear();
        self.expenses_to_remove.clear();
        self.days_to_remove.clear();
        self.people_to_remove.clear();
        self.total_cost = 0;
        self.total_breakfast_cost = 0;
        self.total_lunch_cost = 0;
        self.total_dinner_cost = 0;
        self.total_snacks_cost = 0;
        assert(self.expenses@ =~= Seq::<Expense>::empty());
        self.update_attendances = true;
        self.update_costs = true;
    }

    /// Sets whether day `j` serves meal `m`, and marks counts and costs stale.
    pub fn set_day_serving(&mut self, j: usize, m: Meal, v: bool)
        requires
            old(self).wf(),
            j < old(self).days@.len(),
        ensures
            final(self).wf(),
            keeps_ledger(*old(self), *final(self)),
            final(self).people == old(self).people,
            final(self).days@.len() == old(self).days@.len(),
            forall|q: int| 0 <= q < old(self).days@.len() && q != j ==> #[trigger] final(self).days@[q] == old(self).days@[q],
            final(self).days@[j as int].name == old(self).days@[j as int].name,
            final(self).days@[j as int].total_day_rate == old(self).days@[j as int].total_day_rate,
            forall|o: Meal| #[trigger] final(self).days@[j as int].rate(o) == old(self).days@[j as int].rate(o),
            forall|o: Meal| #[trigger] final(self).days@[j as int].attendees(o) == old(self).days@[j as int].attendees(o),
            final(self).days@[j as int].servings.has(m) == v,
            forall|o: Meal| o != m ==> #[trigger] final(self).days@[j as int].servings.has(o) == old(self).days@[j as int].servings.has(o),
            final(self).update_attendances,
            final(self).update_costs,
    {
        self.days[j].servings.set(m, v);
        self.update_attendances = true;
        self.update_costs = true;
    }

    /// Sets whether person `k` is present on day `j`, and marks counts and
    /// costs stale.
    pub fn set_present(&mut self, k: usize, j: usize, v: bool)
        requires
            old(self).wf(),
            k < old(self).people@.len(),
            j < old(self).days@.len(),
        ensures
            final(self).wf(),
            keeps_ledger(*old(self), *final(self)),
            final(self).days == old(self).days,
            final(self).people@.len() == old(self).people@.len(),
            forall|q: int| 0 <= q < old(self).people@.len() && q != k ==> #[trigger] final(self).people@[q] == old(self).people@[q],
            final(self).people@[k as int].name == old(self).people@[k as int].name,
            final(self).people@[k as int].cost == old(self).people@[k as int].cost,
            final(self).people@[k as int].attendance@.len() == old(self).people@[k as int].attendance@.len(),
            forall|q: int|
                0 <= q < old(self).days@.len() && q != j ==> #[trigger] final(self).people@[k as int].attendance@[q]
                    == old(self).people@[k as int].attendance@[q],
            final(self).people@[k as int].attendance@[j as int].present == v,
            final(self).people@[k as int].attendance@[j as int].day_name == old(self).people@[k as int].attendance@[j as int].day_name,
            final(self).people@[k as int].attendance@[j as int].servings == old(self).people@[k as int].attendance@[j as int].servings,
            final(self).update_attendances,
            final(self).update_costs,
    {
        assert(self.people@[k as int].attendance@.len() == self.days@.len());
        self.people[k].attendance[j].present = v;
        self.update_attendances = true;
        self.update_costs = true;
        assert forall|q: int| 0 <= q < self.people@.len() implies (#[trigger] self.people@[q]).attendance@.len() == self.days@.len() by {
            assert(old(self).people@[q].attendance@.len() == self.days@.len());
        }
    }

    /// Sets whether person `k` eats meal `m` on day `j`, and marks counts and
    /// costs stale.
    pub fn set_attendance_serving(&mut self, k: usize, j: usize, m: Meal, v: bool)
        requires
            old(self).wf(),
            k < old(self).people@.len(),
            j < old(self).days@.len(),
        ensures
            final(self).wf(),
            keeps_ledger(*old(self), *final(self)),
            final(self).days == old(self).days,
            final(self).people@.len() == old(self).people@.len(),
            forall|q: int| 0 <= q < old(self).people@.len() && q != k ==> #[trigger] final(self).people@[q] == old(self).people@[q],
            final(self).people@[k as int].name == old(self).people@[k as int].name,
            final(self).people@[k as int].cost == old(self).people@[k as int].cost,
            final(self).people@[k as int].attendance@.len() == old(self).people@[k as int].attendance@.len(),
            forall|q: int|
                0 <= q < old(self).days@.len() && q != j ==> #[trigger] final(self).people@[k as int].attendance@[q]
                    == old(self).people@[k as int].attendance@[q],
            final(self).people@[k as int].attendance@[j as int].present == old(self).people@[k as int].attendance@[j as int].present,
            final(self).people@[k as int].attendance@[j as int].day_name == old(self).people@[k as int].attendance@[j as int].day_name,
            final(self).people@[k as int].attendance@[j as int].servings.has(m) == v,
            forall|o: Meal|
                o != m ==> #[trigger] final(self).people@[k as int].attendance@[j as int].servings.has(o)
                    == old(self).people@[k as int].attendance@[j as int].servings.has(o),
            final(self).update_attendances,
            final(self).update_costs,
    {
        assert(self.people@[k as int].attendance@.len() == self.days@.len());
        self.people[k].attendance[j].servings.set(m, v);
        self.update_attendances = true;
        self.update_costs = true;
        assert forall|q: int| 0 <= q < self.people@.len() implies (#[trigger] self.people@[q]).attendance@.len() == self.days@.len() by {
            assert(old(self).people@[q].attendance@.len() == self.days@.len());
        }
    }

    /// Sets whether expense `i` is split onto meal `m`, and marks costs stale.
    pub fn set_expense_serving(&mut self, i: usize, m: Meal, v: bool)
        requires
            old(self).wf(),
            i < old(self).expenses@.len(),
        ensures
            final(self).wf(),
            final(self).days == old(self).days,
            final(self).people == old(self).people,
            final(self).expenses@.len() == old(self).expenses@.len(),
            forall|q: int| 0 <= q < old(self).expenses@.len() && q != i ==> #[trigger] final(self).expenses@[q] == old(self).expenses@[q],
            final(self).expenses@[i as int].name == old(self).expenses@[i as int].name,
            final(self).expenses@[i as int].price == old(self).expenses@[i as int].price,
            final(self).expenses@[i as int].serving_type.has(m) == v,
            forall|o: Meal|
                o != m ==> #[trigger] final(self).expenses@[i as int].serving_type.has(o)
                    == old(self).expenses@[i as int].serving_type.has(o),
            final(self).update_attendances == old(self).update_attendances,
            final(self).update_costs,
    {
        let ghost pre = self.expenses@;
        self.expenses[i].serving_type.set(m, v);
        self.update_costs = true;
        proof {
            lemma_same_prices(pre, self.expenses@);
        }
    }
}

/// Two expense lists that differ in nothing but serving flags have the same
/// price sum.
proof fn lemma_same_prices(a: Seq<Expense>, b: Seq<Expense>)
    requires
        a.len() == b.len(),
        forall|q: int| 0 <= q < a.len() ==> #[trigger] a[q].price == b[q].price,
    ensures
        price_sum(a) == price_sum(b),
    decreases a.len(),
{
    if a.len() > 0 {
        assert(a.last().price == b.last().price);
        lemma_same_prices(a.drop_last(), b.drop_last());
    }
}

} // verus!

//! The trip state and the two passes that derive attendance counts, day rates
//! and what each person owes.
use vstd::prelude::*;

use crate::allocation::{
    all_rates_prefix, attendance_count, day_rate, eats, extra_cent, flag, lemma_count_le,
    lemma_count_step, lemma_part_bounded, lemma_person_cost_bounded, lemma_price_prefix,
    lemma_price_sum_kept, lemma_rates_prefix_grows, lemma_rates_total, lemma_serving_day_counted,
    lemma_subtotals_bounded, meal_cost, meal_subtotal, person_cost, person_cost_prefix, price_sum,
    serving_days, serving_days_prefix,
};
use crate::removal::{drop_marked, kept, lemma_kept_all, lemma_kept_len, mask_of, removal_mask};
use crate::types::{Attendance, Day, Expense, Meal, Person, Servings};

verus! {

/// The whole state of a trip: its expenses, days and people, the derived
/// totals, the removals waiting to be applied, and which derived values are
/// stale. Amounts are in cents.
pub struct MoekkiCalcApp {
    pub expenses: Vec<Expense>,
    pub expenses_to_remove: Vec<usize>,
    pub total_breakfast_cost: u64,
    pub total_lunch_cost: u64,
    pub total_dinner_cost: u64,
    pub total_snacks_cost: u64,
    pub total_cost: u64,
    pub days: Vec<Day>,
    pub days_to_remove: Vec<usize>,
    pub people: Vec<Person>,
    pub people_to_remove: Vec<usize>,
    pub update_attendances: bool,
    pub update_costs: bool,
}

/// Day `post` is day `pre` with at most its attendance counts changed.
pub open spec fn day_frame(pre: Day, post: Day) -> bool {
    &&& post.name == pre.name
    &&& post.servings == pre.servings
    &&& post.total_day_rate == pre.total_day_rate
    &&& forall|m: Meal| #[trigger] post.rate(m) == pre.rate(m)
}

/// Attendance `post` is `pre` restricted to the meals that `d` serves.
pub open spec fn restricted(pre: Attendance, post: Attendance, d: Day) -> bool {
    &&& post.day_name == pre.day_name
    &&& post.present == pre.present
    &&& forall|m: Meal| #[trigger] post.servings.has(m) == (pre.servings.has(m) && d.servings.has(m))
}

/// Person `post` is `pre` with each attendance record restricted to the meals
/// of its day.
pub open spec fn person_restricted(pre: Person, post: Person, days: Seq<Day>) -> bool {
    &&& post.name == pre.name
    &&& post.cost == pre.cost
    &&& post.attendance@.len() == pre.attendance@.len()
    &&& forall|j: int|
        0 <= j < pre.attendance@.len() ==> restricted(
            pre.attendance@[j],
            #[trigger] post.attendance@[j],
            days[j],
        )
}

impl Person {
    /// Drops from each attendance record the meals that its day does not serve.
    pub fn restrict_to(&mut self, days: &Vec<Day>)
        requires
            old(self).attendance@.len() == days@.len(),
        ensures
            person_restricted(*old(self), *final(self), days@),
    {
        let ghost pre = *self;
        let mut j: usize = 0;
        while j < days.len()
            invariant
                j <= days@.len(),
                self.attendance@.len() == days@.len(),
                self.name == pre.name,
                self.cost == pre.cost,
                pre.attendance@.len() == days@.len(),
                forall|q: int| 0 <= q < j ==> restricted(pre.attendance@[q], #[trigger] self.attendance@[q], days@[q]),
                forall|q: int| j <= q < days@.len() ==> #[trigger] self.attendance@[q] == pre.attendance@[q],
            decreases days@.len() - j,
        {
            let ds: Servings = days[j].servings;
            let s: Servings = self.attendance[j].servings.and(&ds);
            self.attendance[j].servings = s;
            j = j + 1;
        }
    }
}

/// Day `post` keeps the name, serving flags and attendance counts of `pre`.
pub open spec fn day_inputs_kept(pre: Day, post: Day) -> bool {
    &&& post.name == pre.name
    &&& post.servings == pre.servings
    &&& forall|m: Meal| #[trigger] post.attendees(m) == pre.attendees(m)
}

/// The sum of the four rates of a day.
pub open spec fn rate_sum(d: Day) -> nat {
    d.rate(Meal::Breakfast) + d.rate(Meal::Lunch) + d.rate(Meal::Dinner) + d.rate(Meal::Snacks)
}

/// The price sum of `es` and its four meal subtotals, in the order total,
/// breakfast, lunch, dinner, snacks.
fn expense_totals(es: &Vec<Expense>) -> (r: (u64, u64, u64, u64, u64))
    requires
        price_sum(es@) <= u64::MAX,
    ensures
        r.0 == price_sum(es@),
        r.1 == meal_subtotal(es@, Meal::Breakfast),
        r.2 == meal_subtotal(es@, Meal::Lunch),
        r.3 == meal_subtotal(es@, Meal::Dinner),
        r.4 == meal_subtotal(es@, Meal::Snacks),
{
    let mut total: u64 = 0;
    let mut breakfast: u64 = 0;
    let mut lunch: u64 = 0;
    let mut dinner: u64 = 0;
    let mut snacks: u64 = 0;
    let mut i: usize = 0;
    while i < es.len()
        invariant
            i <= es@.len(),
            price_sum(es@) <= u64::MAX,
            total == price_sum(es@.take(i as int)),
            breakfast == meal_subtotal(es@.take(i as int), Meal::Breakfast),
            lunch == meal_subtotal(es@.take(i as int), Meal::Lunch),
            dinner == meal_subtotal(es@.take(i as int), Meal::Dinner),
            snacks == meal_subtotal(es@.take(i as int), Meal::Snacks),
        decreases es@.len() - i,
    {
        let e: &Expense = &es[i];
        let ghost next = es@.take(i + 1);
        proof {
            assert(next.drop_last() =~= es@.take(i as int));
            assert(next.last() == *e);
            lemma_price_prefix(es@, i + 1);
            lemma_subtotals_bounded(next);
        }
        total = total + e.price;
        let k: u64 = e.serving_type.count();
        if k > 0 {
            let q: u64 = e.price / k;
            let rem: u64 = e.price % k;
            let mut rank: u64 = 0;
            if e.serving_type.breakfast {
                breakfast = breakfast + q + if rank < rem { 1 } else { 0 };
                rank = rank + 1;
            }
            if e.serving_type.lunch {
                lunch = lunch + q + if rank < rem { 1 } else { 0 };
                rank = rank + 1;
            }
            if e.serving_type.dinner {
                dinner = dinner + q + if rank < rem { 1 } else { 0 };
                rank = rank + 1;
            }
            if e.serving_type.snacks {
                snacks = snacks + q + if rank < rem { 1 } else { 0 };
            }
        }
        assert(breakfast == meal_subtotal(next, Meal::Breakfast));
        assert(lunch == meal_subtotal(next, Meal::Lunch));
        assert(dinner == meal_subtotal(next, Meal::Dinner));
        assert(snacks == meal_subtotal(next, Meal::Snacks));
        i = i + 1;
    }
    assert(es@.take(i as int) =~= es@);
    (total, breakfast, lunch, dinner, snacks)
}

/// The number of days that serve meal `m`.
fn serving_day_count(days: &Vec<Day>, m: Meal) -> (r: usize)
    ensures
        r == serving_days(days@, m),
{
    let mut c: usize = 0;
    let mut j: usize = 0;
    while j < days.len()
        invariant
            j <= days@.len(),
            c <= j,
            c == serving_days_prefix(days@, m, j as int),
        decreases days@.len() - j,
    {
        if days[j].servings.get(m) {
            c = c + 1;
        }
        j = j + 1;
    }
    c
}

/// What person `k` owes for meal `m` of day `j`, where `rank` of the people
/// before them eat it.
fn meal_owed(people: &Vec<Person>, k: usize, days: &Vec<Day>, j: usize, m: Meal, rank: usize) -> (r: u64)
    requires
        k < people@.len(),
        j < days@.len(),
        j < people@[k as int].attendance@.len(),
        rank == attendance_count(people@.take(k as int), j as int, m),
    ensures
        r == meal_cost(people@, k as int, days@, j as int, m),
{
    let a: &Attendance = &people[k].attendance[j];
    let d: &Day = &days[j];
    if a.present && a.servings.get(m) {
        let c: usize = d.attendees_of(m);
        if c > 0 {
            let x: u64 = d.rate_of(m);
            let c64: u64 = c as u64;
            proof {
                lemma_part_bounded(x as nat, c as nat, rank as nat);
            }
            x / c64 + if (rank as u64) < x % c64 { 1 } else { 0 }
        } else {
            0
        }
    } else {
        0
    }
}

/// What person `k` owes over `days`, where `seen_*[j]` of the people before
/// them eat the meal of day `j`.
fn person_owes(
    people: &Vec<Person>,
    k: usize,
    days: &Vec<Day>,
    seen_b: &Vec<usize>,
    seen_l: &Vec<usize>,
    seen_d: &Vec<usize>,
    seen_s: &Vec<usize>,
) -> (r: u64)
    requires
        k < people@.len(),
        people@[k as int].attendance@.len() == days@.len(),
        seen_b@.len() == days@.len(),
        seen_l@.len() == days@.len(),
        seen_d@.len() == days@.len(),
        seen_s@.len() == days@.len(),
        forall|j: int| 0 <= j < days@.len() ==> #[trigger] seen_b@[j] == attendance_count(people@.take(k as int), j, Meal::Breakfast),
        forall|j: int| 0 <= j < days@.len() ==> #[trigger] seen_l@[j] == attendance_count(people@.take(k as int), j, Meal::Lunch),
        forall|j: int| 0 <= j < days@.len() ==> #[trigger] seen_d@[j] == attendance_count(people@.take(k as int), j, Meal::Dinner),
        forall|j: int| 0 <= j < days@.len() ==> #[trigger] seen_s@[j] == attendance_count(people@.take(k as int), j, Meal::Snacks),
        all_rates_prefix(days@, days@.len() as int) <= u64::MAX,
    ensures
        r == person_cost(people@, k as int, days@),
{
    let mut cost: u64 = 0;
    let mut j: usize = 0;
    while j < days.len()
        invariant
            j <= days@.len(),
            k < people@.len(),
            people@[k as int].attendance@.len() == days@.len(),
            seen_b@.len() == days@.len(),
            seen_l@.len() == days@.len(),
            seen_d@.len() == days@.len(),
            seen_s@.len() == days@.len(),
            forall|q: int| 0 <= q < days@.len() ==> #[trigger] seen_b@[q] == attendance_count(people@.take(k as int), q, Meal::Breakfast),
            forall|q: int| 0 <= q < days@.len() ==> #[trigger] seen_l@[q] == attendance_count(people@.take(k as int), q, Meal::Lunch),
            forall|q: int| 0 <= q < days@.len() ==> #[trigger] seen_d@[q] == attendance_count(people@.take(k as int), q, Meal::Dinner),
            forall|q: int| 0 <= q < days@.len() ==> #[trigger] seen_s@[q] == attendance_count(people@.take(k as int), q, Meal::Snacks),
            all_rates_prefix(days@, days@.len() as int) <= u64::MAX,
            cost == person_cost_prefix(people@, k as int, days@, j as int),
        decreases days@.len() - j,
    {
        proof {
            lemma_person_cost_bounded(people@, k as int, days@, j + 1);
            lemma_rates_prefix_grows(days@, Meal::Breakfast, j + 1, days@.len() as int);
            lemma_rates_prefix_grows(days@, Meal::Lunch, j + 1, days@.len() as int);
            lemma_rates_prefix_grows(days@, Meal::Dinner, j + 1, days@.len() as int);
            lemma_rates_prefix_grows(days@, Meal::Snacks, j + 1, days@.len() as int);
        }
        let b: u64 = meal_owed(people, k, days, j, Meal::Breakfast, seen_b[j]);
        let l: u64 = meal_owed(people, k, days, j, Meal::Lunch, seen_l[j]);
        let n: u64 = meal_owed(people, k, days, j, Meal::Dinner, seen_d[j]);
        let s: u64 = meal_owed(people, k, days, j, Meal::Snacks, seen_s[j]);
        cost = cost + b + l + n + s;
        j = j + 1;
    }
    cost
}

/// `n` zeros.
fn zeros(n: usize) -> (r: Vec<usize>)
    ensures
        r@.len() == n,
        forall|j: int| 0 <= j < n ==> #[trigger] r@[j] == 0,
{
    let mut r: Vec<usize> = Vec::new();
    while r.len() < n
        invariant
            r@.len() <= n,
            forall|j: int| 0 <= j < r@.len() ==> #[trigger] r@[j] == 0,
        decreases n - r@.len(),
    {
        r.push(0);
    }
    r
}

/// Counts person `p` into `seen`, day by day, where they eat meal `m`.
fn tally(seen: &mut Vec<usize>, p: &Person, m: Meal)
    requires
        old(seen)@.len() == p.attendance@.len(),
        forall|j: int| 0 <= j < old(seen)@.len() ==> #[trigger] old(seen)@[j] < usize::MAX,
    ensures
        final(seen)@.len() == old(seen)@.len(),
        forall|j: int| 0 <= j < old(seen)@.len() ==> #[trigger] final(seen)@[j] == old(seen)@[j] + flag(eats(*p, j, m)),
{
    let ghost pre = seen@;
    let mut j: usize = 0;
    while j < seen.len()
        invariant
            j <= seen@.len(),
            seen@.len() == pre.len(),
            pre.len() == p.attendance@.len(),
            forall|q: int| 0 <= q < pre.len() ==> #[trigger] pre[q] < usize::MAX,
            forall|q: int| 0 <= q < j ==> #[trigger] seen@[q] == pre[q] + flag(eats(*p, q, m)),
            forall|q: int| j <= q < pre.len() ==> #[trigger] seen@[q] == pre[q],
        decreases seen@.len() - j,
    {
        if p.attendance[j].present && p.attendance[j].servings.get(m) {
            let v: usize = seen[j];
            seen.set(j, v + 1);
        }
        j = j + 1;
    }
}

/// The rate of a meal on one day: `subtotal` split over the `count` days that
/// serve the meal, plus a cent left over where `rank` serving days come
/// before it and the cents left over reach it; zero where the day does not
/// serve the meal.
fn meal_rate(serves: bool, subtotal: u64, count: usize, rank: usize) -> (r: u64)
    requires
        serves ==> count > 0,
    ensures
        r == if serves {
            subtotal as nat / count as nat + extra_cent(rank as nat, subtotal as nat % count as nat)
        } else {
            0
        },
        r <= subtotal,
{
    if serves {
        let c64: u64 = count as u64;
        proof {
            lemma_part_bounded(subtotal as nat, count as nat, rank as nat);
        }
        subtotal / c64 + if (rank as u64) < subtotal % c64 { 1 } else { 0 }
    } else {
        0
    }
}

impl MoekkiCalcApp {
    /// Every person has one attendance record per day, and the prices add up
    /// to an amount that fits in a `u64`.
    pub open spec fn wf(self) -> bool {
        &&& price_sum(self.expenses@) <= u64::MAX
        &&& forall|k: int|
            0 <= k < self.people@.len() ==> (#[trigger] self.people@[k]).attendance@.len()
                == self.days@.len()
    }

    /// The subtotal field of meal `m`.
    pub open spec fn subtotal(self, m: Meal) -> nat {
        match m {
            Meal::Breakfast => self.total_breakfast_cost as nat,
            Meal::Lunch => self.total_lunch_cost as nat,
            Meal::Dinner => self.total_dinner_cost as nat,
            Meal::Snacks => self.total_snacks_cost as nat,
        }
    }

    /// `post` is `pre` after the attendance pass: each attendance record keeps
    /// only the meals its day serves, and each served meal of each day counts
    /// the people who eat it. The count of a meal a day does not serve is left
    /// as it was.
    pub open spec fn attendances_updated(pre: Self, post: Self) -> bool {
        &&& pre.wf()
        &&& post.wf()
        &&& post.expenses == pre.expenses
        &&& post.expenses_to_remove == pre.expenses_to_remove
        &&& post.days_to_remove == pre.days_to_remove
        &&& post.people_to_remove == pre.people_to_remove
        &&& post.total_cost == pre.total_cost
        &&& forall|m: Meal| #[trigger] post.subtotal(m) == pre.subtotal(m)
        &&& post.update_costs == pre.update_costs
        &&& !post.update_attendances
        &&& post.days@.len() == pre.days@.len()
        &&& post.people@.len() == pre.people@.len()
        &&& forall|j: int| 0 <= j < pre.days@.len() ==> day_frame(pre.days@[j], #[trigger] post.days@[j])
        &&& forall|j: int, m: Meal|
            0 <= j < pre.days@.len() ==> #[trigger] post.days@[j].attendees(m) == if pre.days@[j].servings.has(m) {
                attendance_count(post.people@, j, m)
            } else {
                pre.days@[j].attendees(m)
            }
        &&& forall|k: int|
            0 <= k < pre.people@.len() ==> person_restricted(pre.people@[k], #[trigger] post.people@[k], pre.days@)
    }

    /// `post` is `pre` after the cost pass: the price total and meal subtotals
    /// of the expenses, each meal's subtotal spread evenly over the days that
    /// serve it, and what each person owes for the meals they eat, each day's
    /// meal rate divided among its counted attendees. Every split hands its
    /// cents left over to its first parts.
    pub open spec fn costs_updated(pre: Self, post: Self) -> bool {
        &&& pre.wf()
        &&& post.wf()
        &&& post.expenses == pre.expenses
        &&& post.expenses_to_remove == pre.expenses_to_remove
        &&& post.days_to_remove == pre.days_to_remove
        &&& post.people_to_remove == pre.people_to_remove
        &&& post.update_attendances == pre.update_attendances
        &&& !post.update_costs
        &&& post.total_cost == price_sum(pre.expenses@)
        &&& forall|m: Meal| #[trigger] post.subtotal(m) == meal_subtotal(pre.expenses@, m)
        &&& post.days@.len() == pre.days@.len()
        &&& forall|j: int| 0 <= j < pre.days@.len() ==> day_inputs_kept(pre.days@[j], #[trigger] post.days@[j])
        &&& forall|j: int, m: Meal|
            0 <= j < pre.days@.len() ==> #[trigger] post.days@[j].rate(m) == day_rate(
                pre.days@,
                meal_subtotal(pre.expenses@, m),
                j,
                m,
            )
        &&& forall|j: int| 0 <= j < pre.days@.len() ==> (#[trigger] post.days@[j]).total_day_rate == rate_sum(post.days@[j])
        &&& post.people@.len() == pre.people@.len()
        &&& forall|k: int|
            0 <= k < pre.people@.len() ==> {
                &&& (#[trigger] post.people@[k]).name == pre.people@[k].name
                &&& post.people@[k].attendance == pre.people@[k].attendance
                &&& post.people@[k].cost == person_cost(pre.people@, k, post.days@)
            }
    }

    /// Recomputes the expense totals, the day rates and what each person owes.
    /// Reads the attendance counts as they stand.
    pub fn update_costs(&mut self)
        requires
            old(self).wf(),
        ensures
            Self::costs_updated(*old(self), *final(self)),
    {
        let ghost pre = *self;
        let (t, b, l, d, s) = expense_totals(&self.expenses);
        proof {
            lemma_subtotals_bounded(pre.expenses@);
        }
        self.total_cost = t;
        self.total_breakfast_cost = b;
        self.total_lunch_cost = l;
        self.total_dinner_cost = d;
        self.total_snacks_cost = s;
        self.update_costs = false;
        self.spread_over_days();
        self.charge_people();
        assert forall|m: Meal| #[trigger] self.subtotal(m) == meal_subtotal(pre.expenses@, m) by {
            match m {
                Meal::Breakfast => {},
                Meal::Lunch => {},
                Meal::Dinner => {},
                Meal::Snacks => {},
            }
        }
    }

    /// Sets each day's rate of each meal to the meal's subtotal spread evenly
    /// over the days that serve it, zero where the day does not serve it.
    fn spread_over_days(&mut self)
        requires
            old(self).wf(),
            old(self).subtotal(Meal::Breakfast) + old(self).subtotal(Meal::Lunch) + old(self).subtotal(Meal::Dinner)
                + old(self).subtotal(Meal::Snacks) <= u64::MAX,
        ensures
            final(self).wf(),
            final(self).expenses == old(self).expenses,
            final(self).expenses_to_remove == old(self).expenses_to_remove,
            final(self).days_to_remove == old(self).days_to_remove,
            final(self).people_to_remove == old(self).people_to_remove,
            final(self).people == old(self).people,
            final(self).total_cost == old(self).total_cost,
            forall|m: Meal| #[trigger] final(self).subtotal(m) == old(self).subtotal(m),
            final(self).update_attendances == old(self).update_attendances,
            final(self).update_costs == old(self).update_costs,
            final(self).days@.len() == old(self).days@.len(),
            forall|j: int| 0 <= j < old(self).days@.len() ==> day_inputs_kept(old(self).days@[j], #[trigger] final(self).days@[j]),
            forall|j: int, m: Meal|
                0 <= j < old(self).days@.len() ==> #[trigger] final(self).days@[j].rate(m) == day_rate(
                    old(self).days@,
                    old(self).subtotal(m),
                    j,
                    m,
                ),
            forall|j: int| 0 <= j < old(self).days@.len() ==> (#[trigger] final(self).days@[j]).total_day_rate == rate_sum(final(self).days@[j]),
            all_rates_prefix(final(self).days@, final(self).days@.len() as int) <= old(self).subtotal(Meal::Breakfast)
                + old(self).subtotal(Meal::Lunch) + old(self).subtotal(Meal::Dinner) + old(self).subtotal(Meal::Snacks),
    {
        let ghost pre = *self;
        let nb: usize = serving_day_count(&self.days, Meal::Breakfast);
        let nl: usize = serving_day_count(&self.days, Meal::Lunch);
        let nd: usize = serving_day_count(&self.days, Meal::Dinner);
        let ns: usize = serving_day_count(&self.days, Meal::Snacks);
        let mut sb: usize = 0;
        let mut sl: usize = 0;
        let mut sd: usize = 0;
        let mut ss: usize = 0;
        let mut j: usize = 0;
        while j < self.days.len()
            invariant
                j <= self.days@.len(),
                self.days@.len() == pre.days@.len(),
                self.expenses == pre.expenses,
                self.expenses_to_remove == pre.expenses_to_remove,
                self.days_to_remove == pre.days_to_remove,
                self.people_to_remove == pre.people_to_remove,
                self.people == pre.people,
                self.total_cost == pre.total_cost,
                self.total_breakfast_cost == pre.total_breakfast_cost,
                self.total_lunch_cost == pre.total_lunch_cost,
                self.total_dinner_cost == pre.total_dinner_cost,
                self.total_snacks_cost == pre.total_snacks_cost,
                self.update_attendances == pre.update_attendances,
                self.update_costs == pre.update_costs,
                pre.wf(),
                pre.subtotal(Meal::Breakfast) + pre.subtotal(Meal::Lunch) + pre.subtotal(Meal::Dinner)
                    + pre.subtotal(Meal::Snacks) <= u64::MAX,
                nb == serving_days(pre.days@, Meal::Breakfast),
                nl == serving_days(pre.days@, Meal::Lunch),
                nd == serving_days(pre.days@, Meal::Dinner),
                ns == serving_days(pre.days@, Meal::Snacks),
                sb <= j && sl <= j && sd <= j && ss <= j,
                sb == serving_days_prefix(pre.days@, Meal::Breakfast, j as int),
                sl == serving_days_prefix(pre.days@, Meal::Lunch, j as int),
                sd == serving_days_prefix(pre.days@, Meal::Dinner, j as int),
                ss == serving_days_prefix(pre.days@, Meal::Snacks, j as int),
                forall|q: int| 0 <= q < self.days@.len() ==> day_inputs_kept(pre.days@[q], #[trigger] self.days@[q]),
                forall|q: int, m: Meal|
                    0 <= q < j ==> #[trigger] self.days@[q].rate(m) == day_rate(pre.days@, pre.subtotal(m), q, m),
                forall|q: int| 0 <= q < j ==> (#[trigger] self.days@[q]).total_day_rate == rate_sum(self.days@[q]),
                forall|q: int| j <= q < self.days@.len() ==> #[trigger] self.days@[q] == pre.days@[q],
            decreases self.days@.len() - j,
        {
            let sv: Servings = self.days[j].servings;
            proof {
                let n = pre.days@.len() as int;
                if sv.breakfast {
                    lemma_serving_day_counted(pre.days@, Meal::Breakfast, j as int, n);
                }
                if sv.lunch {
                    lemma_serving_day_counted(pre.days@, Meal::Lunch, j as int, n);
                }
                if sv.dinner {
                    lemma_serving_day_counted(pre.days@, Meal::Dinner, j as int, n);
                }
                if sv.snacks {
                    lemma_serving_day_counted(pre.days@, Meal::Snacks, j as int, n);
                }
            }
            let rb: u64 = meal_rate(sv.breakfast, self.total_breakfast_cost, nb, sb);
            let rl: u64 = meal_rate(sv.lunch, self.total_lunch_cost, nl, sl);
            let rd: u64 = meal_rate(sv.dinner, self.total_dinner_cost, nd, sd);
            let rs: u64 = meal_rate(sv.snacks, self.total_snacks_cost, ns, ss);
            self.days[j].set_rate(Meal::Breakfast, rb);
            self.days[j].set_rate(Meal::Lunch, rl);
            self.days[j].set_rate(Meal::Dinner, rd);
            self.days[j].set_rate(Meal::Snacks, rs);
            self.days[j].total_day_rate = rb + rl + rd + rs;
            assert(forall|m: Meal| #[trigger] self.days@[j as int].rate(m) == day_rate(pre.days@, pre.subtotal(m), j as int, m));
            if sv.breakfast {
                sb = sb + 1;
            }
            if sv.lunch {
                sl = sl + 1;
            }
            if sv.dinner {
                sd = sd + 1;
            }
            if sv.snacks {
                ss = ss + 1;
            }
            j = j + 1;
        }
        proof {
            lemma_rates_total(self.days@, pre.days@, Meal::Breakfast, pre.subtotal(Meal::Breakfast));
            lemma_rates_total(self.days@, pre.days@, Meal::Lunch, pre.subtotal(Meal::Lunch));
            lemma_rates_total(self.days@, pre.days@, Meal::Dinner, pre.subtotal(Meal::Dinner));
            lemma_rates_total(self.days@, pre.days@, Meal::Snacks, pre.subtotal(Meal::Snacks));
        }
    }

    /// Sets what each person owes from the current day rates and counts.
    fn charge_people(&mut self)
        requires
            old(self).wf(),
            all_rates_prefix(old(self).days@, old(self).days@.len() as int) <= u64::MAX,
        ensures
            final(self).wf(),
            final(self).expenses == old(self).expenses,
            final(self).expenses_to_remove == old(self).expenses_to_remove,
            final(self).days_to_remove == old(self).days_to_remove,
            final(self).people_to_remove == old(self).people_to_remove,
            final(self).days == old(self).days,
            final(self).total_cost == old(self).total_cost,
            forall|m: Meal| #[trigger] final(self).subtotal(m) == old(self).subtotal(m),
            final(self).update_attendances == old(self).update_attendances,
            final(self).update_costs == old(self).update_costs,
            final(self).people@.len() == old(self).people@.len(),
            forall|k: int|
                0 <= k < old(self).people@.len() ==> {
                    &&& (#[trigger] final(self).people@[k]).name == old(self).people@[k].name
                    &&& final(self).people@[k].attendance == old(self).people@[k].attendance
                    &&& final(self).people@[k].cost == person_cost(old(self).people@, k, final(self).days@)
                },
    {
        let ghost pre = *self;
        let n: usize = self.days.len();
        let mut seen_b: Vec<usize> = zeros(n);
        let mut seen_l: Vec<usize> = zeros(n);
        let mut seen_d: Vec<usize> = zeros(n);
        let mut seen_s: Vec<usize> = zeros(n);
        proof {
            assert(pre.people@.take(0) =~= Seq::<Person>::empty());
        }
        let mut costs: Vec<u64> = Vec::new();
        let mut k: usize = 0;
        while k < self.people.len()
            invariant
                k <= self.people@.len(),
                self.people == pre.people,
                self.days == pre.days,
                n == self.days@.len(),
                pre.wf(),
                costs@.len() == k,
                all_rates_prefix(pre.days@, pre.days@.len() as int) <= u64::MAX,
                seen_b@.len() == n && seen_l@.len() == n && seen_d@.len() == n && seen_s@.len() == n,
                forall|j: int| 0 <= j < n ==> #[trigger] seen_b@[j] == attendance_count(pre.people@.take(k as int), j, Meal::Breakfast),
                forall|j: int| 0 <= j < n ==> #[trigger] seen_l@[j] == attendance_count(pre.people@.take(k as int), j, Meal::Lunch),
                forall|j: int| 0 <= j < n ==> #[trigger] seen_d@[j] == attendance_count(pre.people@.take(k as int), j, Meal::Dinner),
                forall|j: int| 0 <= j < n ==> #[trigger] seen_s@[j] == attendance_count(pre.people@.take(k as int), j, Meal::Snacks),
                forall|q: int| 0 <= q < k ==> #[trigger] costs@[q] == person_cost(pre.people@, q, pre.days@),
            decreases self.people@.len() - k,
        {
            assert(pre.people@[k as int].attendance@.len() == pre.days@.len());
            let c: u64 = person_owes(&self.people, k, &self.days, &seen_b, &seen_l, &seen_d, &seen_s);
            costs.push(c);
            proof {
                assert forall|j: int| 0 <= j < n implies #[trigger] seen_b@[j] < usize::MAX by {
                    lemma_count_le(pre.people@.take(k as int), j, Meal::Breakfast);
                }
                assert forall|j: int| 0 <= j < n implies #[trigger] seen_l@[j] < usize::MAX by {
                    lemma_count_le(pre.people@.take(k as int), j, Meal::Lunch);
                }
                assert forall|j: int| 0 <= j < n implies #[trigger] seen_d@[j] < usize::MAX by {
                    lemma_count_le(pre.people@.take(k as int), j, Meal::Dinner);
                }
                assert forall|j: int| 0 <= j < n implies #[trigger] seen_s@[j] < usize::MAX by {
                    lemma_count_le(pre.people@.take(k as int), j, Meal::Snacks);
                }
            }
            tally(&mut seen_b, &self.people[k], Meal::Breakfast);
            tally(&mut seen_l, &self.people[k], Meal::Lunch);
            tally(&mut seen_d, &self.people[k], Meal::Dinner);
            tally(&mut seen_s, &self.people[k], Meal::Snacks);
            proof {
                assert forall|j: int| 0 <= j < n implies #[trigger] seen_b@[j] == attendance_count(pre.people@.take(k + 1), j, Meal::Breakfast) by {
                    lemma_count_step(pre.people@, j, Meal::Breakfast, k as int);
                }
                assert forall|j: int| 0 <= j < n implies #[trigger] seen_l@[j] == attendance_count(pre.people@.take(k + 1), j, Meal::Lunch) by {
                    lemma_count_step(pre.people@, j, Meal::Lunch, k as int);
                }
                assert forall|j: int| 0 <= j < n implies #[trigger] seen_d@[j] == attendance_count(pre.people@.take(k + 1), j, Meal::Dinner) by {
                    lemma_count_step(pre.people@, j, Meal::Dinner, k as int);
                }
                assert forall|j: int| 0 <= j < n implies #[trigger] seen_s@[j] == attendance_count(pre.people@.take(k + 1), j, Meal::Snacks) by {
                    lemma_count_step(pre.people@, j, Meal::Snacks, k as int);
                }
            }
            k = k + 1;
        }
        let mut q: usize = 0;
        while q < self.people.len()
            invariant
                q <= self.people@.len(),
                self.people@.len() == pre.people@.len(),
                costs@.len() == pre.people@.len(),
                self.days == pre.days,
                self.expenses == pre.expenses,
                self.expenses_to_remove == pre.expenses_to_remove,
                self.days_to_remove == pre.days_to_remove,
                self.people_to_remove == pre.people_to_remove,
                self.total_cost == pre.total_cost,
                self.total_breakfast_cost == pre.total_breakfast_cost,
                self.total_lunch_cost == pre.total_lunch_cost,
                self.total_dinner_cost == pre.total_dinner_cost,
                self.total_snacks_cost == pre.total_snacks_cost,
                self.update_attendances == pre.update_attendances,
                self.update_costs == pre.update_costs,
                forall|i: int| 0 <= i < pre.people@.len() ==> #[trigger] costs@[i] == person_cost(pre.people@, i, pre.days@),
                forall|i: int|
                    0 <= i < q ==> {
                        &&& (#[trigger] self.people@[i]).name == pre.people@[i].name
                        &&& self.people@[i].attendance == pre.people@[i].attendance
                        &&& self.people@[i].cost == costs@[i]
                    },
                forall|i: int| q <= i < self.people@.len() ==> #[trigger] self.people@[i] == pre.people@[i],
            decreases self.people@.len() - q,
        {
            self.people[q].cost = costs[q];
            q = q + 1;
        }
        assert forall|i: int| 0 <= i < self.people@.len() implies (#[trigger] self.people@[i]).attendance@.len() == self.days@.len() by {
            assert(pre.people@[i].attendance@.len() == pre.days@.len());
        }
    }

    /// Recounts who eats each served meal of each day, after dropping from
    /// every attendance record the meals its day does not serve.
    pub fn update_attendances(&mut self)
        requires
            old(self).wf(),
        ensures
            Self::attendances_updated(*old(self), *final(self)),
    {
        let ghost pre = *self;
        let mut k: usize = 0;
        while k < self.people.len()
            invariant
                k <= self.people@.len(),
                self.people@.len() == pre.people@.len(),
                self.days == pre.days,
                self.expenses == pre.expenses,
                self.expenses_to_remove == pre.expenses_to_remove,
                self.days_to_remove == pre.days_to_remove,
                self.people_to_remove == pre.people_to_remove,
                self.total_cost == pre.total_cost,
                self.total_breakfast_cost == pre.total_breakfast_cost,
                self.total_lunch_cost == pre.total_lunch_cost,
                self.total_dinner_cost == pre.total_dinner_cost,
                self.total_snacks_cost == pre.total_snacks_cost,
                self.update_costs == pre.update_costs,
                pre.wf(),
                forall|q: int| 0 <= q < k ==> person_restricted(pre.people@[q], #[trigger] self.people@[q], pre.days@),
                forall|q: int| k <= q < self.people@.len() ==> #[trigger] self.people@[q] == pre.people@[q],
            decreases self.people@.len() - k,
        {
            assert(self.people@[k as int].attendance@.len() == self.days@.len());
            self.people[k].restrict_to(&self.days);
            k = k + 1;
        }
        let mut j: usize = 0;
        while j < self.days.len()
            invariant
                j <= self.days@.len(),
                self.days@.len() == pre.days@.len(),
                self.people@.len() == pre.people@.len(),
                self.expenses == pre.expenses,
                self.expenses_to_remove == pre.expenses_to_remove,
                self.days_to_remove == pre.days_to_remove,
                self.people_to_remove == pre.people_to_remove,
                self.total_cost == pre.total_cost,
                self.total_breakfast_cost == pre.total_breakfast_cost,
                self.total_lunch_cost == pre.total_lunch_cost,
                self.total_dinner_cost == pre.total_dinner_cost,
                self.total_snacks_cost == pre.total_snacks_cost,
                self.update_costs == pre.update_costs,
                pre.wf(),
                forall|q: int| 0 <= q < self.people@.len() ==> person_restricted(pre.people@[q], #[trigger] self.people@[q], pre.days@),
                forall|q: int| 0 <= q < self.days@.len() ==> day_frame(pre.days@[q], #[trigger] self.days@[q]),
                forall|q: int, m: Meal|
                    0 <= q < j ==> #[trigger] self.days@[q].attendees(m) == if pre.days@[q].servings.has(m) {
                        attendance_count(self.people@, q, m)
                    } else {
                        pre.days@[q].attendees(m)
                    },
                forall|q: int| j <= q < self.days@.len() ==> #[trigger] self.days@[q] == pre.days@[q],
            decreases self.days@.len() - j,
        {
            self.count_day(j, Meal::Breakfast);
            self.count_day(j, Meal::Lunch);
            self.count_day(j, Meal::Dinner);
            self.count_day(j, Meal::Snacks);
            j = j + 1;
        }
        self.update_attendances = false;
    }

    /// Where day `j` serves meal `m`, sets its attendance count to the number
    /// of people who eat it; nothing else changes.
    fn count_day(&mut self, j: usize, m: Meal)
        requires
            old(self).wf(),
            j < old(self).days@.len(),
        ensures
            final(self).people == old(self).people,
            final(self).expenses == old(self).expenses,
            final(self).expenses_to_remove == old(self).expenses_to_remove,
            final(self).days_to_remove == old(self).days_to_remove,
            final(self).people_to_remove == old(self).people_to_remove,
            final(self).total_cost == old(self).total_cost,
            final(self).total_breakfast_cost == old(self).total_breakfast_cost,
            final(self).total_lunch_cost == old(self).total_lunch_cost,
            final(self).total_dinner_cost == old(self).total_dinner_cost,
            final(self).total_snacks_cost == old(self).total_snacks_cost,
            final(self).update_costs == old(self).update_costs,
            final(self).update_attendances == old(self).update_attendances,
            final(self).days@.len() == old(self).days@.len(),
            forall|q: int| 0 <= q < old(self).days@.len() && q != j ==> #[trigger] final(self).days@[q] == old(self).days@[q],
            day_frame(old(self).days@[j as int], final(self).days@[j as int]),
            forall|o: Meal| o != m ==> #[trigger] final(self).days@[j as int].attendees(o) == old(self).days@[j as int].attendees(o),
            final(self).days@[j as int].attendees(m) == if old(self).days@[j as int].servings.has(m) {
                attendance_count(old(self).people@, j as int, m)
            } else {
                old(self).days@[j as int].attendees(m)
            },
    {
        if self.days[j].servings.get(m) {
            let mut c: usize = 0;
            let mut k: usize = 0;
            while k < self.people.len()
                invariant
                    k <= self.people@.len(),
                    c <= k,
                    c == attendance_count(self.people@.take(k as int), j as int, m),
                    j < self.days@.len(),
                    self.wf(),
                decreases self.people@.len() - k,
            {
                assert(self.people@[k as int].attendance@.len() == self.days@.len());
                let a: &Attendance = &self.people[k].attendance[j];
                if a.present && a.servings.get(m) {
                    c = c + 1;
                }
                assert(self.people@.take(k + 1).drop_last() =~= self.people@.take(k as int));
                k = k + 1;
            }
            assert(self.people@.take(k as int) =~= self.people@);
            self.days[j].set_attendees(m, c);
        }
    }

    /// `post` is `pre` after the attendance pass and then the cost pass.
    pub open spec fn recomputed(pre: Self, post: Self) -> bool {
        exists|mid: Self| #[trigger] Self::attendances_updated(pre, mid) && Self::costs_updated(mid, post)
    }

    /// Runs the attendance pass, then the cost pass.
    pub fn recompute(&mut self)
        requires
            old(self).wf(),
        ensures
            Self::recomputed(*old(self), *final(self)),
    {
        let ghost pre = *self;
        self.update_attendances();
        let ghost mid = *self;
        self.update_costs();
        assert(Self::attendances_updated(pre, mid) && Self::costs_updated(mid, *self));
    }

    /// `post` is `pre` after the queued removals: expenses, people and days
    /// each keep exactly the positions that are not queued, in their order,
    /// and every remaining person keeps exactly the attendance records of the
    /// remaining days. Queued positions past the end are ignored. The queues
    /// are emptied, the costs marked stale, and the attendance counts marked
    /// stale where people or days were queued.
    pub open spec fn removals_applied(pre: Self, post: Self) -> bool {
        let people = kept(pre.people@, removal_mask(pre.people_to_remove@, pre.people@.len()));
        let day_mask = removal_mask(pre.days_to_remove@, pre.days@.len());
        &&& post.wf()
        &&& post.expenses@ == kept(pre.expenses@, removal_mask(pre.expenses_to_remove@, pre.expenses@.len()))
        &&& post.days@ == kept(pre.days@, day_mask)
        &&& post.people@.len() == people.len()
        &&& forall|k: int|
            0 <= k < people.len() ==> {
                &&& (#[trigger] post.people@[k]).name == people[k].name
                &&& post.people@[k].cost == people[k].cost
                &&& post.people@[k].attendance@ == kept(people[k].attendance@, day_mask)
            }
        &&& post.expenses_to_remove@.len() == 0
        &&& post.people_to_remove@.len() == 0
        &&& post.days_to_remove@.len() == 0
        &&& post.total_cost == pre.total_cost
        &&& forall|m: Meal| #[trigger] post.subtotal(m) == pre.subtotal(m)
        &&& post.update_attendances == (pre.update_attendances || pre.people_to_remove@.len() > 0
            || pre.days_to_remove@.len() > 0)
        &&& post.update_costs
    }

    /// Applies the queued removals of expenses, people and days.
    pub fn update_removed(&mut self)
        requires
            old(self).wf(),
        ensures
            Self::removals_applied(*old(self), *final(self)),
    {
        let ghost pre = *self;
        let recount: bool = self.people_to_remove.len() > 0 || self.days_to_remove.len() > 0;
        let de: Vec<bool> = mask_of(&self.expenses_to_remove, self.expenses.len());
        proof {
            lemma_price_sum_kept(pre.expenses@, de@, 0);
            assert(pre.expenses@.subrange(0, pre.expenses@.len() as int) =~= pre.expenses@);
        }
        drop_marked(&mut self.expenses, &de);
        let dp: Vec<bool> = mask_of(&self.people_to_remove, self.people.len());
        drop_marked(&mut self.people, &dp);
        let ghost n = self.days@.len();
        proof {
            let p = |x: Person| x.attendance@.len() == n;
            assert forall|j: int| 0 <= j < pre.people@.len() implies p(#[trigger] pre.people@[j]) by {
                assert(pre.people@[j].attendance@.len() == n);
            }
            lemma_kept_all(pre.people@, dp@, 0, p);
            assert forall|j: int| 0 <= j < self.people@.len() implies (#[trigger] self.people@[j]).attendance@.len() == n by {
                assert(p(self.people@[j]));
            }
        }
        let dd: Vec<bool> = mask_of(&self.days_to_remove, self.days.len());
        drop_marked(&mut self.days, &dd);
        let ghost kept_people = self.people@;
        let mut k: usize = 0;
        while k < self.people.len()
            invariant
                k <= self.people@.len(),
                self.people@.len() == kept_people.len(),
                dd@.len() == n,
                self.days@ == kept(pre.days@, dd@),
                pre.days@.len() == n,
                dd@ == removal_mask(pre.days_to_remove@, n),
                kept_people == kept(pre.people@, removal_mask(pre.people_to_remove@, pre.people@.len())),
                self.expenses@ == kept(pre.expenses@, removal_mask(pre.expenses_to_remove@, pre.expenses@.len())),
                price_sum(self.expenses@) <= u64::MAX,
                self.update_attendances == pre.update_attendances,
                recount == (pre.people_to_remove@.len() > 0 || pre.days_to_remove@.len() > 0),
                self.total_cost == pre.total_cost,
                self.total_breakfast_cost == pre.total_breakfast_cost,
                self.total_lunch_cost == pre.total_lunch_cost,
                self.total_dinner_cost == pre.total_dinner_cost,
                self.total_snacks_cost == pre.total_snacks_cost,
                forall|q: int| 0 <= q < kept_people.len() ==> (#[trigger] kept_people[q]).attendance@.len() == n,
                forall|q: int|
                    0 <= q < k ==> {
                        &&& (#[trigger] self.people@[q]).name == kept_people[q].name
                        &&& self.people@[q].cost == kept_people[q].cost
                        &&& self.people@[q].attendance@ == kept(kept_people[q].attendance@, dd@)
                        &&& self.people@[q].attendance@.len() == self.days@.len()
                    },
                forall|q: int| k <= q < self.people@.len() ==> #[trigger] self.people@[q] == kept_people[q],
            decreases self.people@.len() - k,
        {
            assert(kept_people[k as int].attendance@.len() == n);
            drop_marked(&mut self.people[k].attendance, &dd);
            proof {
                lemma_kept_len(kept_people[k as int].attendance@, pre.days@, dd@, 0);
            }
            k = k + 1;
        }
        self.expenses_to_remove.clear();
        self.people_to_remove.clear();
        self.days_to_remove.clear();
        if recount {
            self.update_attendances = true;
        }
        self.update_costs = true;
    }
}

} // verus!

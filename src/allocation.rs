//! The arithmetic of splitting expenses into meals, meals into days, and a
//! day's meal among the people who eat it. All amounts are in cents. Each
//! split gives every part the amount rounded down, and hands the cents left
//! over one each to the first parts in order, so the parts add up to the
//! whole.
use vstd::prelude::*;

use crate::types::{Day, Expense, Meal, Person, Servings};

verus! {

/// One for a set flag, zero otherwise.
pub open spec fn flag(b: bool) -> nat {
    if b {
        1
    } else {
        0
    }
}

/// The cent left over that a part of rank `rank` receives when `rem` cents
/// are left over: one for each of the first `rem` parts.
pub open spec fn extra_cent(rank: nat, rem: nat) -> nat {
    if rank < rem {
        1
    } else {
        0
    }
}

/// How many of the meals before `m`, in the order breakfast, lunch, dinner,
/// snacks, are flagged in `s`.
pub open spec fn meal_rank(s: Servings, m: Meal) -> nat {
    match m {
        Meal::Breakfast => 0,
        Meal::Lunch => flag(s.breakfast),
        Meal::Dinner => flag(s.breakfast) + flag(s.lunch),
        Meal::Snacks => flag(s.breakfast) + flag(s.lunch) + flag(s.dinner),
    }
}

/// The part of expense `e` that falls on meal `m`: its price split evenly over
/// the meals it is flagged for, the cents left over going to its first
/// flagged meals. An expense flagged for no meal gives no share.
pub open spec fn share(e: Expense, m: Meal) -> nat {
    if e.serving_type.has(m) {
        let k = e.serving_type.flag_count();
        e.price as nat / k + extra_cent(meal_rank(e.serving_type, m), e.price as nat % k)
    } else {
        0
    }
}

/// The sum of the prices of `es`.
pub open spec fn price_sum(es: Seq<Expense>) -> nat
    decreases es.len(),
{
    if es.len() == 0 {
        0
    } else {
        price_sum(es.drop_last()) + es.last().price as nat
    }
}

/// The sum of the shares of meal `m` over `es`.
pub open spec fn meal_subtotal(es: Seq<Expense>, m: Meal) -> nat
    decreases es.len(),
{
    if es.len() == 0 {
        0
    } else {
        meal_subtotal(es.drop_last(), m) + share(es.last(), m)
    }
}

/// The sum of the four meal subtotals.
pub open spec fn subtotals_sum(es: Seq<Expense>) -> nat {
    meal_subtotal(es, Meal::Breakfast) + meal_subtotal(es, Meal::Lunch) + meal_subtotal(
        es,
        Meal::Dinner,
    ) + meal_subtotal(es, Meal::Snacks)
}

/// How many of the first `n` days serve meal `m`.
pub open spec fn serving_days_prefix(days: Seq<Day>, m: Meal, n: int) -> nat
    decreases n,
{
    if n <= 0 {
        0
    } else {
        serving_days_prefix(days, m, n - 1) + flag(days[n - 1].servings.has(m))
    }
}

/// How many days serve meal `m`.
pub open spec fn serving_days(days: Seq<Day>, m: Meal) -> nat {
    serving_days_prefix(days, m, days.len() as int)
}

/// The rate of meal `m` on day `j` of `days`: the meal's subtotal spread
/// evenly over the days that serve it, the cents left over going to the first
/// serving days; zero where day `j` does not serve it.
pub open spec fn day_rate(days: Seq<Day>, subtotal: nat, j: int, m: Meal) -> nat {
    if days[j].servings.has(m) {
        let c = serving_days(days, m);
        subtotal / c + extra_cent(serving_days_prefix(days, m, j), subtotal % c)
    } else {
        0
    }
}

/// Whether person `p` eats meal `m` on day `i`.
pub open spec fn eats(p: Person, i: int, m: Meal) -> bool {
    p.attendance@[i].present && p.attendance@[i].servings.has(m)
}

/// How many of `people` eat meal `m` on day `i`.
pub open spec fn attendance_count(people: Seq<Person>, i: int, m: Meal) -> nat
    decreases people.len(),
{
    if people.len() == 0 {
        0
    } else {
        attendance_count(people.drop_last(), i, m) + flag(eats(people.last(), i, m))
    }
}

/// What person `k` of `people` owes for meal `m` of day `j`: the day's rate
/// of the meal divided among its counted attendees, the cents left over going
/// to the first people who eat it. Nothing when the person does not eat the
/// meal, or when the day counts no attendee for it.
pub open spec fn meal_cost(people: Seq<Person>, k: int, days: Seq<Day>, j: int, m: Meal) -> nat {
    let d = days[j];
    if eats(people[k], j, m) && d.attendees(m) > 0 {
        d.rate(m) / d.attendees(m) + extra_cent(
            attendance_count(people.take(k), j, m),
            d.rate(m) % d.attendees(m),
        )
    } else {
        0
    }
}

/// What person `k` owes for day `j`.
pub open spec fn attendance_cost(people: Seq<Person>, k: int, days: Seq<Day>, j: int) -> nat {
    meal_cost(people, k, days, j, Meal::Breakfast) + meal_cost(people, k, days, j, Meal::Lunch)
        + meal_cost(people, k, days, j, Meal::Dinner) + meal_cost(people, k, days, j, Meal::Snacks)
}

/// What person `k` owes for the first `n` days.
pub open spec fn person_cost_prefix(people: Seq<Person>, k: int, days: Seq<Day>, n: int) -> nat
    decreases n,
{
    if n <= 0 {
        0
    } else {
        person_cost_prefix(people, k, days, n - 1) + attendance_cost(people, k, days, n - 1)
    }
}

/// What person `k` of `people` owes over `days`.
pub open spec fn person_cost(people: Seq<Person>, k: int, days: Seq<Day>) -> nat {
    person_cost_prefix(people, k, days, people[k].attendance@.len() as int)
}

/// What the first `n` people owe together for meal `m` of day `j`.
pub open spec fn eaters_cost_prefix(people: Seq<Person>, days: Seq<Day>, j: int, m: Meal, n: int) -> nat
    decreases n,
{
    if n <= 0 {
        0
    } else {
        eaters_cost_prefix(people, days, j, m, n - 1) + meal_cost(people, n - 1, days, j, m)
    }
}

/// The sum of the rates of meal `m` over the first `n` days.
pub open spec fn rates_prefix(days: Seq<Day>, m: Meal, n: int) -> nat
    decreases n,
{
    if n <= 0 {
        0
    } else {
        rates_prefix(days, m, n - 1) + days[n - 1].rate(m)
    }
}

/// The sum of all four meal rates over the first `n` days.
pub open spec fn all_rates_prefix(days: Seq<Day>, n: int) -> nat {
    rates_prefix(days, Meal::Breakfast, n) + rates_prefix(days, Meal::Lunch, n) + rates_prefix(
        days,
        Meal::Dinner,
        n,
    ) + rates_prefix(days, Meal::Snacks, n)
}

/// `c`, capped at `r`.
pub open spec fn capped(c: nat, r: nat) -> nat {
    if c < r {
        c
    } else {
        r
    }
}

proof fn lemma_flag_times(b: bool, q: nat)
    ensures
        flag(b) * q == if b {
            q
        } else {
            0
        },
{
}

/// The shares of an expense flagged for one or more meals add up to its
/// price.
pub proof fn lemma_shares_sum(e: Expense)
    requires
        e.serving_type.flag_count() > 0,
    ensures
        share(e, Meal::Breakfast) + share(e, Meal::Lunch) + share(e, Meal::Dinner) + share(
            e,
            Meal::Snacks,
        ) == e.price,
{
    let s = e.serving_type;
    let k = s.flag_count();
    let p = e.price as nat;
    let q = p / k;
    let r = p % k;
    let (b, l, d, n) = (flag(s.breakfast), flag(s.lunch), flag(s.dinner), flag(s.snacks));
    assert(k == b + l + d + n);
    assert((b + l + d + n) * q == b * q + l * q + d * q + n * q) by (nonlinear_arith);
    lemma_flag_times(s.breakfast, q);
    lemma_flag_times(s.lunch, q);
    lemma_flag_times(s.dinner, q);
    lemma_flag_times(s.snacks, q);
    assert(k * q + r == p && r < k) by (nonlinear_arith)
        requires
            k > 0,
            q == p / k,
            r == p % k,
    ;
}

/// The four shares of one expense never add up to more than its price.
pub proof fn lemma_shares_bounded(e: Expense)
    ensures
        share(e, Meal::Breakfast) + share(e, Meal::Lunch) + share(e, Meal::Dinner) + share(
            e,
            Meal::Snacks,
        ) <= e.price,
{
    if e.serving_type.flag_count() > 0 {
        lemma_shares_sum(e);
    }
}

/// The four meal subtotals never add up to more than the prices.
pub proof fn lemma_subtotals_bounded(es: Seq<Expense>)
    ensures
        subtotals_sum(es) <= price_sum(es),
    decreases es.len(),
{
    if es.len() > 0 {
        lemma_subtotals_bounded(es.drop_last());
        lemma_shares_bounded(es.last());
    }
}

/// Conservation: when every expense is flagged for at least one meal, the
/// four meal subtotals add up to the total price.
pub proof fn lemma_subtotals_conserve_prices(es: Seq<Expense>)
    requires
        forall|i: int| 0 <= i < es.len() ==> (#[trigger] es[i]).serving_type.flag_count() > 0,
    ensures
        subtotals_sum(es) == price_sum(es),
    decreases es.len(),
{
    if es.len() > 0 {
        let rest = es.drop_last();
        assert(es[es.len() - 1].serving_type.flag_count() > 0);
        lemma_shares_sum(es.last());
        assert forall|i: int| 0 <= i < rest.len() implies (#[trigger] rest[i]).serving_type.flag_count() > 0 by {
            assert(rest[i] == es[i]);
        }
        lemma_subtotals_conserve_prices(rest);
    }
}

/// Handing one more part its share: the parts so far come to `c` times the
/// share plus the cents left over that went to them.
pub proof fn lemma_spread_step(c: nat, q: nat, r: nat)
    ensures
        (c + 1) * q + capped(c + 1, r) == c * q + capped(c, r) + q + extra_cent(c, r),
{
    assert((c + 1) * q == c * q + q) by (nonlinear_arith);
}

/// All `c` parts of `total` together come to `total`.
pub proof fn lemma_spread_total(total: nat, c: nat)
    requires
        c > 0,
    ensures
        c * (total / c) + capped(c, total % c) == total,
{
    let q = total / c;
    let r = total % c;
    assert(c * q + r == total && r < c) by (nonlinear_arith)
        requires
            c > 0,
            q == total / c,
            r == total % c,
    ;
}

/// A share rounded down, plus at most one cent left over, is no more than
/// the amount split.
pub proof fn lemma_part_bounded(total: nat, c: nat, rank: nat)
    requires
        c > 0,
    ensures
        total / c + extra_cent(rank, total % c) <= total,
{
    let q = total / c;
    let r = total % c;
    assert(c * q + r == total && r < c) by (nonlinear_arith)
        requires
            c > 0,
            q == total / c,
            r == total % c,
    ;
    assert(q <= c * q) by (nonlinear_arith)
        requires
            c > 0,
    ;
}

/// Taking a prefix of the expenses never raises their price sum.
pub proof fn lemma_price_prefix(es: Seq<Expense>, i: int)
    requires
        0 <= i <= es.len(),
    ensures
        price_sum(es.take(i)) <= price_sum(es),
    decreases es.len(),
{
    if i < es.len() {
        assert(es.take(i) =~= es.drop_last().take(i));
        lemma_price_prefix(es.drop_last(), i);
    } else {
        assert(es.take(i) =~= es);
    }
}

/// A day that serves meal `m` is counted among the days that serve it.
pub proof fn lemma_serving_day_counted(days: Seq<Day>, m: Meal, j: int, n: int)
    requires
        0 <= j < n <= days.len(),
        days[j].servings.has(m),
    ensures
        serving_days_prefix(days, m, n) >= 1,
    decreases n,
{
    if j < n - 1 {
        lemma_serving_day_counted(days, m, j, n - 1);
    }
}

/// Serving counts depend on the days' serving flags alone.
pub proof fn lemma_serving_days_frame(a: Seq<Day>, b: Seq<Day>, m: Meal, n: int)
    requires
        0 <= n <= a.len(),
        a.len() == b.len(),
        forall|j: int| 0 <= j < a.len() ==> #[trigger] a[j].servings == b[j].servings,
    ensures
        serving_days_prefix(a, m, n) == serving_days_prefix(b, m, n),
    decreases n,
{
    if n > 0 {
        assert(a[n - 1].servings == b[n - 1].servings);
        lemma_serving_days_frame(a, b, m, n - 1);
    }
}

/// Rate sums over a prefix grow with the prefix.
pub proof fn lemma_rates_prefix_grows(days: Seq<Day>, m: Meal, n: int, n2: int)
    requires
        0 <= n <= n2 <= days.len(),
    ensures
        rates_prefix(days, m, n) <= rates_prefix(days, m, n2),
    decreases n2,
{
    if n < n2 {
        lemma_rates_prefix_grows(days, m, n, n2 - 1);
    }
}

} // verus!

verus! {

} // verus!

verus! {

/// Putting an expense in front adds its price.
pub proof fn lemma_price_sum_prepend(e: Expense, rest: Seq<Expense>)
    ensures
        price_sum(seq![e] + rest) == e.price + price_sum(rest),
    decreases rest.len(),
{
    if rest.len() > 0 {
        assert((seq![e] + rest).drop_last() =~= seq![e] + rest.drop_last());
        assert((seq![e] + rest).last() == rest.last());
        lemma_price_sum_prepend(e, rest.drop_last());
    } else {
        assert(seq![e] + rest =~= seq![e]);
        assert(seq![e].drop_last() =~= Seq::<Expense>::empty());
        assert(seq![e].last() == e);
        assert(price_sum(Seq::<Expense>::empty()) == 0);
    }
}

/// Keeping some of the expenses never raises the price sum.
pub proof fn lemma_price_sum_kept(es: Seq<Expense>, d: Seq<bool>, i: int)
    requires
        0 <= i <= es.len(),
    ensures
        price_sum(crate::removal::kept_from(es, d, i)) <= price_sum(es.subrange(i, es.len() as int)),
    decreases es.len() - i,
{
    let n = es.len() as int;
    if i < n {
        lemma_price_sum_kept(es, d, i + 1);
        assert(es.subrange(i, n) =~= seq![es[i]] + es.subrange(i + 1, n));
        lemma_price_sum_prepend(es[i], es.subrange(i + 1, n));
        lemma_price_sum_prepend(es[i], crate::removal::kept_from(es, d, i + 1));
    } else {
        assert(crate::removal::kept_from(es, d, i) =~= Seq::<Expense>::empty());
    }
}

} // verus!

verus! {

/// Where each day's rate of `m` is its `day_rate` for subtotal `total`, the
/// rates of the first `n` days come to the shares of the serving days among
/// them, with their cents left over.
pub proof fn lemma_rates_spread(days: Seq<Day>, orig: Seq<Day>, m: Meal, total: nat, n: int)
    requires
        0 <= n <= days.len(),
        days.len() == orig.len(),
        forall|j: int| 0 <= j < days.len() ==> #[trigger] days[j].rate(m) == day_rate(orig, total, j, m),
    ensures
        serving_days(orig, m) > 0 ==> rates_prefix(days, m, n) == serving_days_prefix(orig, m, n) * (
        total / serving_days(orig, m)) + capped(
            serving_days_prefix(orig, m, n),
            total % serving_days(orig, m),
        ),
        serving_days(orig, m) == 0 ==> rates_prefix(days, m, n) == 0,
    decreases n,
{
    let c = serving_days(orig, m);
    if n > 0 {
        lemma_rates_spread(days, orig, m, total, n - 1);
        assert(days[n - 1].rate(m) == day_rate(orig, total, n - 1, m));
        if orig[n - 1].servings.has(m) {
            lemma_serving_day_counted(orig, m, n - 1, orig.len() as int);
            lemma_spread_step(serving_days_prefix(orig, m, n - 1), total / c, total % c);
        }
    } else if c > 0 {
        assert(0 * (total / c) == 0);
    }
}

/// The rates of a meal over all days add up to its subtotal, where some day
/// serves it.
pub proof fn lemma_rates_total(days: Seq<Day>, orig: Seq<Day>, m: Meal, total: nat)
    requires
        days.len() == orig.len(),
        forall|j: int| 0 <= j < days.len() ==> #[trigger] days[j].rate(m) == day_rate(orig, total, j, m),
    ensures
        serving_days(orig, m) > 0 ==> rates_prefix(days, m, days.len() as int) == total,
        serving_days(orig, m) == 0 ==> rates_prefix(days, m, days.len() as int) == 0,
{
    lemma_rates_spread(days, orig, m, total, days.len() as int);
    if serving_days(orig, m) > 0 {
        lemma_spread_total(total, serving_days(orig, m));
    }
}

/// Counting one more person adds one exactly when they eat the meal.
pub proof fn lemma_count_step(people: Seq<Person>, j: int, m: Meal, k: int)
    requires
        0 <= k < people.len(),
    ensures
        attendance_count(people.take(k + 1), j, m) == attendance_count(people.take(k), j, m) + flag(
            eats(people[k], j, m),
        ),
{
    assert(people.take(k + 1).drop_last() =~= people.take(k));
}

/// No more people are counted than there are.
pub proof fn lemma_count_le(people: Seq<Person>, j: int, m: Meal)
    ensures
        attendance_count(people, j, m) <= people.len(),
    decreases people.len(),
{
    if people.len() > 0 {
        lemma_count_le(people.drop_last(), j, m);
    }
}

/// What the first `n` people owe for a meal comes to the shares of those
/// among them who eat it, with their cents left over.
pub proof fn lemma_eaters_spread(people: Seq<Person>, days: Seq<Day>, j: int, m: Meal, n: int)
    requires
        0 <= n <= people.len(),
        0 <= j < days.len(),
        days[j].attendees(m) > 0,
    ensures
        eaters_cost_prefix(people, days, j, m, n) == attendance_count(people.take(n), j, m) * (
        days[j].rate(m) / days[j].attendees(m)) + capped(
            attendance_count(people.take(n), j, m),
            days[j].rate(m) % days[j].attendees(m),
        ),
    decreases n,
{
    let c = days[j].attendees(m);
    let x = days[j].rate(m);
    if n > 0 {
        lemma_eaters_spread(people, days, j, m, n - 1);
        lemma_count_step(people, j, m, n - 1);
        let before = attendance_count(people.take(n - 1), j, m);
        if eats(people[n - 1], j, m) {
            lemma_spread_step(before, x / c, x % c);
        }
    } else {
        assert(people.take(0) =~= Seq::<Person>::empty());
        assert(0 * (x / c) == 0);
    }
}

/// What one person owes for a meal is no more than the day's rate for it.
pub proof fn lemma_meal_cost_bounded(people: Seq<Person>, k: int, days: Seq<Day>, j: int, m: Meal)
    ensures
        meal_cost(people, k, days, j, m) <= days[j].rate(m),
{
    let d = days[j];
    if eats(people[k], j, m) && d.attendees(m) > 0 {
        lemma_part_bounded(d.rate(m), d.attendees(m), attendance_count(people.take(k), j, m));
    }
}

/// A person never owes more than the sum of the rates of the days counted.
pub proof fn lemma_person_cost_bounded(people: Seq<Person>, k: int, days: Seq<Day>, n: int)
    requires
        0 <= n <= days.len(),
    ensures
        person_cost_prefix(people, k, days, n) <= all_rates_prefix(days, n),
    decreases n,
{
    if n > 0 {
        lemma_person_cost_bounded(people, k, days, n - 1);
        lemma_meal_cost_bounded(people, k, days, n - 1, Meal::Breakfast);
        lemma_meal_cost_bounded(people, k, days, n - 1, Meal::Lunch);
        lemma_meal_cost_bounded(people, k, days, n - 1, Meal::Dinner);
        lemma_meal_cost_bounded(people, k, days, n - 1, Meal::Snacks);
    }
}

} // verus!

//! Properties that relate several passes over a trip.
use vstd::prelude::*;

use crate::allocation::{
    all_rates_prefix, attendance_count, day_rate, eaters_cost_prefix, eats, lemma_eaters_spread,
    lemma_rates_total, lemma_serving_days_frame, lemma_spread_total, meal_cost, meal_subtotal,
    person_cost, person_cost_prefix, rates_prefix, serving_days,
};
use crate::calc::{day_frame, day_inputs_kept, person_restricted, restricted, MoekkiCalcApp};
use crate::edit::cost_sum;
use crate::removal::{kept, lemma_single_removal, removal_mask};
use crate::types::{Attendance, Day, Meal, Person};

verus! {

/// A served meal that nobody is counted for adds nothing to what anyone owes.
pub proof fn unattended_meal_is_free(people: Seq<Person>, k: int, days: Seq<Day>, j: int, m: Meal)
    requires
        days[j].servings.has(m),
        days[j].attendees(m) == 0,
    ensures
        meal_cost(people, k, days, j, m) == 0,
{
}

/// Attendance counts depend only on who eats the meal.
pub proof fn lemma_count_frame(xs: Seq<Person>, ys: Seq<Person>, j: int, m: Meal)
    requires
        xs.len() == ys.len(),
        forall|k: int| 0 <= k < xs.len() ==> #[trigger] eats(xs[k], j, m) == eats(ys[k], j, m),
    ensures
        attendance_count(xs, j, m) == attendance_count(ys, j, m),
    decreases xs.len(),
{
    if xs.len() > 0 {
        let (q1, q2) = (xs.drop_last(), ys.drop_last());
        assert(eats(xs[xs.len() - 1], j, m) == eats(ys[xs.len() - 1], j, m));
        assert forall|k: int| 0 <= k < q1.len() implies #[trigger] eats(q1[k], j, m) == eats(q2[k], j, m) by {
            assert(eats(xs[k], j, m) == eats(ys[k], j, m));
        }
        lemma_count_frame(q1, q2, j, m);
    }
}

/// Two days priced alike for every meal.
pub open spec fn priced_alike(d1: Day, d2: Day) -> bool {
    forall|m: Meal| #[trigger] d1.rate(m) == d2.rate(m) && d1.attendees(m) == d2.attendees(m)
}

/// Two attendance records that eat alike.
pub open spec fn eat_alike(a1: Attendance, a2: Attendance) -> bool {
    &&& a1.present == a2.present
    &&& forall|m: Meal| #[trigger] a1.servings.has(m) == a2.servings.has(m)
}

/// People who eat alike on day `j` are counted alike there.
proof fn lemma_people_eat_alike(xs: Seq<Person>, ys: Seq<Person>, j: int, m: Meal, k: int)
    requires
        xs.len() == ys.len(),
        0 <= k <= xs.len(),
        forall|i: int| 0 <= i < xs.len() ==> eat_alike(#[trigger] xs[i].attendance@[j], ys[i].attendance@[j]),
    ensures
        forall|i: int| 0 <= i < xs.len() ==> #[trigger] eats(xs[i], j, m) == eats(ys[i], j, m),
        attendance_count(xs.take(k), j, m) == attendance_count(ys.take(k), j, m),
{
    assert forall|i: int| 0 <= i < xs.len() implies #[trigger] eats(xs[i], j, m) == eats(ys[i], j, m) by {
        assert(eat_alike(xs[i].attendance@[j], ys[i].attendance@[j]));
        assert(xs[i].attendance@[j].servings.has(m) == ys[i].attendance@[j].servings.has(m));
    }
    let (t1, t2) = (xs.take(k), ys.take(k));
    assert forall|i: int| 0 <= i < t1.len() implies #[trigger] eats(t1[i], j, m) == eats(t2[i], j, m) by {
        assert(t1[i] == xs[i] && t2[i] == ys[i]);
    }
    lemma_count_frame(t1, t2, j, m);
}

proof fn lemma_meal_cost_frame(xs: Seq<Person>, ys: Seq<Person>, k: int, d1: Seq<Day>, d2: Seq<Day>, j: int, m: Meal)
    requires
        xs.len() == ys.len(),
        0 <= k < xs.len(),
        forall|i: int| 0 <= i < xs.len() ==> eat_alike(#[trigger] xs[i].attendance@[j], ys[i].attendance@[j]),
        priced_alike(d1[j], d2[j]),
    ensures
        meal_cost(xs, k, d1, j, m) == meal_cost(ys, k, d2, j, m),
{
    lemma_people_eat_alike(xs, ys, j, m, k);
    assert(eats(xs[k], j, m) == eats(ys[k], j, m));
    assert(d1[j].rate(m) == d2[j].rate(m) && d1[j].attendees(m) == d2[j].attendees(m));
}

/// What a person owes depends only on what everybody eats and on the days'
/// rates and counts.
pub proof fn lemma_person_cost_frame(xs: Seq<Person>, ys: Seq<Person>, k: int, d1: Seq<Day>, d2: Seq<Day>, n: int)
    requires
        xs.len() == ys.len(),
        0 <= k < xs.len(),
        0 <= n <= d1.len(),
        n <= d2.len(),
        forall|i: int, j: int| 0 <= i < xs.len() && 0 <= j < n ==> eat_alike(#[trigger] xs[i].attendance@[j], ys[i].attendance@[j]),
        forall|j: int| 0 <= j < n ==> priced_alike(#[trigger] d1[j], d2[j]),
    ensures
        person_cost_prefix(xs, k, d1, n) == person_cost_prefix(ys, k, d2, n),
    decreases n,
{
    if n > 0 {
        lemma_person_cost_frame(xs, ys, k, d1, d2, n - 1);
        let j = n - 1;
        assert(priced_alike(d1[j], d2[j]));
        assert forall|i: int| 0 <= i < xs.len() implies eat_alike(#[trigger] xs[i].attendance@[j], ys[i].attendance@[j]) by {
            assert(eat_alike(xs[i].attendance@[j], ys[i].attendance@[j]));
        }
        lemma_meal_cost_frame(xs, ys, k, d1, d2, j, Meal::Breakfast);
        lemma_meal_cost_frame(xs, ys, k, d1, d2, j, Meal::Lunch);
        lemma_meal_cost_frame(xs, ys, k, d1, d2, j, Meal::Dinner);
        lemma_meal_cost_frame(xs, ys, k, d1, d2, j, Meal::Snacks);
    }
}

/// The rates that the cost pass gives a meal over all days add up to the
/// meal's subtotal, where some day serves the meal.
pub proof fn rates_add_up_to_subtotal(pre: MoekkiCalcApp, post: MoekkiCalcApp, m: Meal)
    requires
        MoekkiCalcApp::costs_updated(pre, post),
        serving_days(pre.days@, m) > 0,
    ensures
        rates_prefix(post.days@, m, post.days@.len() as int) == post.subtotal(m),
{
    assert forall|j: int| 0 <= j < post.days@.len() implies #[trigger] post.days@[j].rate(m) == day_rate(
        pre.days@,
        meal_subtotal(pre.expenses@, m),
        j,
        m,
    ) by {}
    lemma_rates_total(post.days@, pre.days@, m, meal_subtotal(pre.expenses@, m));
}

/// Where a day's count of a meal is the number of people who eat it, and is
/// above zero, what they owe for it adds up to the day's rate of the meal.
pub proof fn eaters_share_the_rate(people: Seq<Person>, days: Seq<Day>, j: int, m: Meal)
    requires
        0 <= j < days.len(),
        days[j].attendees(m) == attendance_count(people, j, m),
        days[j].attendees(m) > 0,
    ensures
        eaters_cost_prefix(people, days, j, m, people.len() as int) == days[j].rate(m),
{
    lemma_eaters_spread(people, days, j, m, people.len() as int);
    assert(people.take(people.len() as int) =~= people);
    lemma_spread_total(days[j].rate(m), days[j].attendees(m));
}

/// Running the attendance pass a second time changes no serving flag and no
/// attendance count.
pub proof fn attendance_pass_idempotent(a: MoekkiCalcApp, b: MoekkiCalcApp, c: MoekkiCalcApp)
    requires
        MoekkiCalcApp::attendances_updated(a, b),
        MoekkiCalcApp::attendances_updated(b, c),
    ensures
        c.days@.len() == b.days@.len(),
        c.people@.len() == b.people@.len(),
        forall|j: int, m: Meal| 0 <= j < b.days@.len() ==> #[trigger] c.days@[j].attendees(m) == b.days@[j].attendees(m),
        forall|k: int, j: int|
            0 <= k < b.people@.len() && 0 <= j < b.days@.len() ==> eat_alike(
                #[trigger] c.people@[k].attendance@[j],
                b.people@[k].attendance@[j],
            ),
{
    lemma_attendance_stable(a, b, c);
}

/// The second attendance pass after a first one keeps who eats what, and so
/// every count.
proof fn lemma_attendance_stable(a: MoekkiCalcApp, b: MoekkiCalcApp, c: MoekkiCalcApp)
    requires
        MoekkiCalcApp::attendances_updated(a, b),
        MoekkiCalcApp::attendances_updated(b, c),
    ensures
        forall|k: int, j: int|
            0 <= k < b.people@.len() && 0 <= j < b.days@.len() ==> eat_alike(
                #[trigger] c.people@[k].attendance@[j],
                b.people@[k].attendance@[j],
            ),
        forall|j: int, m: Meal| 0 <= j < b.days@.len() ==> #[trigger] c.days@[j].attendees(m) == b.days@[j].attendees(m),
{
    assert forall|k: int, j: int|
        0 <= k < b.people@.len() && 0 <= j < b.days@.len() implies eat_alike(
        #[trigger] c.people@[k].attendance@[j],
        b.people@[k].attendance@[j],
    ) by {
        assert(person_restricted(a.people@[k], b.people@[k], a.days@));
        assert(person_restricted(b.people@[k], c.people@[k], b.days@));
        assert(a.people@[k].attendance@.len() == a.days@.len());
        assert(day_frame(a.days@[j], b.days@[j]));
        let (x, y, z) = (a.people@[k].attendance@[j], b.people@[k].attendance@[j], c.people@[k].attendance@[j]);
        assert(restricted(x, y, a.days@[j]));
        assert(restricted(y, z, b.days@[j]));
        assert forall|m: Meal| #[trigger] z.servings.has(m) == y.servings.has(m) by {
            assert(y.servings.has(m) == (x.servings.has(m) && a.days@[j].servings.has(m)));
            assert(z.servings.has(m) == (y.servings.has(m) && b.days@[j].servings.has(m)));
        }
    }
    assert forall|j: int, m: Meal| 0 <= j < b.days@.len() implies #[trigger] c.days@[j].attendees(m) == b.days@[j].attendees(m) by {
        assert(day_frame(a.days@[j], b.days@[j]));
        if b.days@[j].servings.has(m) {
            assert forall|k: int| 0 <= k < c.people@.len() implies #[trigger] eats(c.people@[k], j, m) == eats(b.people@[k], j, m) by {
                assert(person_restricted(a.people@[k], b.people@[k], a.days@));
                assert(a.people@[k].attendance@.len() == a.days@.len());
                assert(eat_alike(c.people@[k].attendance@[j], b.people@[k].attendance@[j]));
            }
            lemma_count_frame(c.people@, b.people@, j, m);
        }
    }
}

/// The derived values of `post1` and `post2` agree: totals, day rates and
/// what each person owes.
pub open spec fn costs_agree(post1: MoekkiCalcApp, post2: MoekkiCalcApp) -> bool {
    &&& post2.total_cost == post1.total_cost
    &&& forall|m: Meal| #[trigger] post2.subtotal(m) == post1.subtotal(m)
    &&& post2.days@.len() == post1.days@.len()
    &&& forall|j: int, m: Meal| 0 <= j < post1.days@.len() ==> #[trigger] post2.days@[j].rate(m) == post1.days@[j].rate(m)
    &&& forall|j: int| 0 <= j < post1.days@.len() ==> (#[trigger] post2.days@[j]).total_day_rate == post1.days@[j].total_day_rate
    &&& post2.people@.len() == post1.people@.len()
    &&& forall|k: int| 0 <= k < post1.people@.len() ==> (#[trigger] post2.people@[k]).cost == post1.people@[k].cost
}

/// Two states that hold the same expenses, days that serve alike with the
/// same counts, and people who eat alike.
pub open spec fn same_cost_inputs(s1: MoekkiCalcApp, s2: MoekkiCalcApp) -> bool {
    &&& s1.expenses@ == s2.expenses@
    &&& s1.days@.len() == s2.days@.len()
    &&& forall|j: int| 0 <= j < s1.days@.len() ==> (#[trigger] s1.days@[j]).servings == s2.days@[j].servings
    &&& forall|j: int, m: Meal| 0 <= j < s1.days@.len() ==> #[trigger] s1.days@[j].attendees(m) == s2.days@[j].attendees(m)
    &&& s1.people@.len() == s2.people@.len()
    &&& forall|k: int, j: int|
        0 <= k < s1.people@.len() && 0 <= j < s1.days@.len() ==> eat_alike(
            #[trigger] s1.people@[k].attendance@[j],
            s2.people@[k].attendance@[j],
        )
}

/// The cost pass is a function of the expenses, the days' serving flags and
/// counts, and what each person eats.
pub proof fn lemma_costs_agree(a1: MoekkiCalcApp, b1: MoekkiCalcApp, a2: MoekkiCalcApp, b2: MoekkiCalcApp)
    requires
        MoekkiCalcApp::costs_updated(a1, b1),
        MoekkiCalcApp::costs_updated(a2, b2),
        same_cost_inputs(a1, a2),
    ensures
        costs_agree(b1, b2),
{
    let n = a1.days@.len() as int;
    assert forall|m: Meal, j: int| 0 <= j <= n implies #[trigger] crate::allocation::serving_days_prefix(a1.days@, m, j)
        == crate::allocation::serving_days_prefix(a2.days@, m, j) by {
        lemma_serving_days_frame(a1.days@, a2.days@, m, j);
    }
    assert forall|j: int| 0 <= j < n implies priced_alike(#[trigger] b1.days@[j], b2.days@[j]) by {
        assert(day_inputs_kept(a1.days@[j], b1.days@[j]));
        assert(day_inputs_kept(a2.days@[j], b2.days@[j]));
        assert forall|m: Meal| #[trigger] b1.days@[j].rate(m) == b2.days@[j].rate(m) && b1.days@[j].attendees(m)
            == b2.days@[j].attendees(m) by {
            assert(a1.days@[j].attendees(m) == a2.days@[j].attendees(m));
            assert(crate::allocation::serving_days_prefix(a1.days@, m, n) == crate::allocation::serving_days_prefix(a2.days@, m, n));
            assert(crate::allocation::serving_days_prefix(a1.days@, m, j) == crate::allocation::serving_days_prefix(a2.days@, m, j));
        }
    }
    assert forall|j: int| 0 <= j < n implies (#[trigger] b2.days@[j]).total_day_rate == b1.days@[j].total_day_rate by {
        assert(priced_alike(b1.days@[j], b2.days@[j]));
        assert(b1.days@[j].rate(Meal::Breakfast) == b2.days@[j].rate(Meal::Breakfast));
        assert(b1.days@[j].rate(Meal::Lunch) == b2.days@[j].rate(Meal::Lunch));
        assert(b1.days@[j].rate(Meal::Dinner) == b2.days@[j].rate(Meal::Dinner));
        assert(b1.days@[j].rate(Meal::Snacks) == b2.days@[j].rate(Meal::Snacks));
    }
    assert forall|k: int| 0 <= k < b1.people@.len() implies (#[trigger] b2.people@[k]).cost == b1.people@[k].cost by {
        assert(a1.people@[k].attendance@.len() == n);
        assert(a2.people@[k].attendance@.len() == n);
        lemma_person_cost_frame(a1.people@, a2.people@, k, b1.days@, b2.days@, n);
    }
    assert forall|m: Meal| #[trigger] b2.subtotal(m) == b1.subtotal(m) by {
    }
}

/// Running the cost pass a second time changes no derived value.
pub proof fn cost_pass_idempotent(a: MoekkiCalcApp, b: MoekkiCalcApp, c: MoekkiCalcApp)
    requires
        MoekkiCalcApp::costs_updated(a, b),
        MoekkiCalcApp::costs_updated(b, c),
    ensures
        costs_agree(b, c),
{
    assert forall|j: int| 0 <= j < a.days@.len() implies (#[trigger] a.days@[j]).servings == b.days@[j].servings by {
        assert(day_inputs_kept(a.days@[j], b.days@[j]));
    }
    assert forall|j: int, m: Meal| 0 <= j < a.days@.len() implies #[trigger] a.days@[j].attendees(m) == b.days@[j].attendees(m) by {
        assert(day_inputs_kept(a.days@[j], b.days@[j]));
    }
    assert forall|k: int, j: int|
        0 <= k < a.people@.len() && 0 <= j < a.days@.len() implies eat_alike(
        #[trigger] a.people@[k].attendance@[j],
        b.people@[k].attendance@[j],
    ) by {
        assert(b.people@[k].attendance == a.people@[k].attendance);
    }
    lemma_costs_agree(a, b, b, c);
}

/// Recomputing twice in a row gives the same derived values as recomputing
/// once: attendance counts, serving flags, totals, day rates and what each
/// person owes.
pub proof fn recompute_idempotent(a: MoekkiCalcApp, b: MoekkiCalcApp, c: MoekkiCalcApp)
    requires
        MoekkiCalcApp::recomputed(a, b),
        MoekkiCalcApp::recomputed(b, c),
    ensures
        costs_agree(b, c),
        forall|j: int, m: Meal| 0 <= j < b.days@.len() ==> #[trigger] c.days@[j].attendees(m) == b.days@[j].attendees(m),
        forall|k: int, j: int|
            0 <= k < b.people@.len() && 0 <= j < b.days@.len() ==> eat_alike(
                #[trigger] c.people@[k].attendance@[j],
                b.people@[k].attendance@[j],
            ),
{
    let mid1 = choose|mid: MoekkiCalcApp| #[trigger] MoekkiCalcApp::attendances_updated(a, mid) && MoekkiCalcApp::costs_updated(mid, b);
    let mid2 = choose|mid: MoekkiCalcApp| #[trigger] MoekkiCalcApp::attendances_updated(b, mid) && MoekkiCalcApp::costs_updated(mid, c);
    let n = b.days@.len() as int;
    assert forall|j: int| 0 <= j < n implies (#[trigger] mid1.days@[j]).servings == mid2.days@[j].servings by {
        assert(day_inputs_kept(mid1.days@[j], b.days@[j]));
        assert(day_frame(b.days@[j], mid2.days@[j]));
    }
    assert forall|k: int, j: int|
        0 <= k < b.people@.len() && 0 <= j < n implies eat_alike(#[trigger] mid2.people@[k].attendance@[j], b.people@[k].attendance@[j]) by {
        assert(person_restricted(a.people@[k], mid1.people@[k], a.days@));
        assert(person_restricted(b.people@[k], mid2.people@[k], b.days@));
        assert(a.people@[k].attendance@.len() == a.days@.len());
        assert(mid1.people@[k].attendance == b.people@[k].attendance);
        assert(day_frame(a.days@[j], mid1.days@[j]));
        assert(day_inputs_kept(mid1.days@[j], b.days@[j]));
        let (x, y, z) = (a.people@[k].attendance@[j], b.people@[k].attendance@[j], mid2.people@[k].attendance@[j]);
        assert(restricted(x, y, a.days@[j]));
        assert(restricted(y, z, b.days@[j]));
        assert forall|m: Meal| #[trigger] z.servings.has(m) == y.servings.has(m) by {
            assert(y.servings.has(m) == (x.servings.has(m) && a.days@[j].servings.has(m)));
            assert(z.servings.has(m) == (y.servings.has(m) && b.days@[j].servings.has(m)));
        }
    }
    assert forall|j: int, m: Meal| 0 <= j < n implies #[trigger] mid2.days@[j].attendees(m) == mid1.days@[j].attendees(m) by {
        assert(day_frame(a.days@[j], mid1.days@[j]));
        assert(day_inputs_kept(mid1.days@[j], b.days@[j]));
        assert(day_frame(b.days@[j], mid2.days@[j]));
        if b.days@[j].servings.has(m) {
            assert forall|k: int| 0 <= k < mid2.people@.len() implies #[trigger] eats(mid2.people@[k], j, m) == eats(mid1.people@[k], j, m) by {
                assert(mid1.people@[k].attendance == b.people@[k].attendance);
                assert(eat_alike(mid2.people@[k].attendance@[j], b.people@[k].attendance@[j]));
            }
            lemma_count_frame(mid2.people@, mid1.people@, j, m);
        }
    }
    assert forall|k: int, j: int|
        0 <= k < b.people@.len() && 0 <= j < n implies eat_alike(#[trigger] mid1.people@[k].attendance@[j], mid2.people@[k].attendance@[j]) by {
        assert(mid1.people@[k].attendance == b.people@[k].attendance);
        assert(eat_alike(mid2.people@[k].attendance@[j], b.people@[k].attendance@[j]));
    }
    lemma_costs_agree(mid1, b, mid2, c);
    assert forall|j: int, m: Meal| 0 <= j < n implies #[trigger] c.days@[j].attendees(m) == b.days@[j].attendees(m) by {
        assert(day_inputs_kept(mid1.days@[j], b.days@[j]));
        assert(day_inputs_kept(mid2.days@[j], c.days@[j]));
        assert(mid2.days@[j].attendees(m) == mid1.days@[j].attendees(m));
    }
    assert forall|k: int, j: int|
        0 <= k < b.people@.len() && 0 <= j < n implies eat_alike(#[trigger] c.people@[k].attendance@[j], b.people@[k].attendance@[j]) by {
        assert(c.people@[k].attendance == mid2.people@[k].attendance);
        assert(eat_alike(mid2.people@[k].attendance@[j], b.people@[k].attendance@[j]));
    }
}

/// An empty queue keeps everything.
proof fn lemma_nothing_queued<T>(s: Seq<T>, queue: Seq<usize>, i: int)
    requires
        queue.len() == 0,
        0 <= i <= s.len(),
    ensures
        crate::removal::kept_from(s, removal_mask(queue, s.len()), i) == s.subrange(i, s.len() as int),
    decreases s.len() - i,
{
    if i < s.len() {
        lemma_nothing_queued(s, queue, i + 1);
        assert(!removal_mask(queue, s.len())[i]);
        assert(seq![s[i]] + s.subrange(i + 1, s.len() as int) =~= s.subrange(i, s.len() as int));
    } else {
        assert(s.subrange(i, s.len() as int) =~= Seq::<T>::empty());
    }
}

/// Removing one day removes that day and, from every person, the attendance
/// record at the same position.
pub proof fn day_removal_keeps_alignment(pre: MoekkiCalcApp, post: MoekkiCalcApp, i: usize)
    requires
        pre.wf(),
        MoekkiCalcApp::removals_applied(pre, post),
        pre.people_to_remove@.len() == 0,
        pre.days_to_remove@ == seq![i],
        i < pre.days@.len(),
    ensures
        post.days@ == pre.days@.remove(i as int),
        post.people@.len() == pre.people@.len(),
        forall|k: int|
            0 <= k < pre.people@.len() ==> (#[trigger] post.people@[k]).attendance@ == pre.people@[k].attendance@.remove(
                i as int,
            ),
{
    lemma_single_removal(pre.days@, i);
    assert(kept(pre.people@, removal_mask(pre.people_to_remove@, pre.people@.len())) == pre.people@) by {
        lemma_nothing_queued(pre.people@, pre.people_to_remove@, 0);
        assert(pre.people@.subrange(0, pre.people@.len() as int) =~= pre.people@);
    }
    assert forall|k: int| 0 <= k < pre.people@.len() implies (#[trigger] post.people@[k]).attendance@ == pre.people@[k].attendance@.remove(
        i as int,
    ) by {
        assert(pre.people@[k].attendance@.len() == pre.days@.len());
        lemma_single_removal(pre.people@[k].attendance@, i);
        assert(pre.days@.len() == pre.people@[k].attendance@.len());
    }
}

/// After a recompute, a meal that a day does not serve has rate zero that day,
/// and nobody eats it that day.
pub proof fn unserved_meal_after_recompute(pre: MoekkiCalcApp, post: MoekkiCalcApp, j: int, m: Meal)
    requires
        MoekkiCalcApp::recomputed(pre, post),
        0 <= j < pre.days@.len(),
        !pre.days@[j].servings.has(m),
    ensures
        post.days@[j].rate(m) == 0,
        forall|k: int| 0 <= k < post.people@.len() ==> !(#[trigger] post.people@[k]).attendance@[j].servings.has(m),
{
    let mid = choose|mid: MoekkiCalcApp| #[trigger] MoekkiCalcApp::attendances_updated(pre, mid) && MoekkiCalcApp::costs_updated(mid, post);
    assert(day_frame(pre.days@[j], mid.days@[j]));
    assert(post.days@[j].rate(m) == day_rate(mid.days@, meal_subtotal(mid.expenses@, m), j, m));
    assert forall|k: int| 0 <= k < post.people@.len() implies !(#[trigger] post.people@[k]).attendance@[j].servings.has(m) by {
        assert(person_restricted(pre.people@[k], mid.people@[k], pre.days@));
        assert(pre.people@[k].attendance@.len() == pre.days@.len());
        assert(post.people@[k].attendance == mid.people@[k].attendance);
        assert(restricted(pre.people@[k].attendance@[j], mid.people@[k].attendance@[j], pre.days@[j]));
    }
}

} // verus!

verus! {

/// What the first `kk` people owe together for the first `jj` days.
pub open spec fn owed_by_people(people: Seq<Person>, days: Seq<Day>, kk: int, jj: int) -> nat
    decreases kk,
{
    if kk <= 0 {
        0
    } else {
        owed_by_people(people, days, kk - 1, jj) + person_cost_prefix(people, kk - 1, days, jj)
    }
}

/// What the first `kk` people owe together for each meal of the first `jj`
/// days, summed day by day.
pub open spec fn owed_by_meals(people: Seq<Person>, days: Seq<Day>, kk: int, jj: int) -> nat
    decreases jj,
{
    if jj <= 0 {
        0
    } else {
        owed_by_meals(people, days, kk, jj - 1) + eaters_cost_prefix(people, days, jj - 1, Meal::Breakfast, kk)
            + eaters_cost_prefix(people, days, jj - 1, Meal::Lunch, kk) + eaters_cost_prefix(
            people,
            days,
            jj - 1,
            Meal::Dinner,
            kk,
        ) + eaters_cost_prefix(people, days, jj - 1, Meal::Snacks, kk)
    }
}

/// The sum of the day rates of the first `jj` days.
pub open spec fn day_rates_sum(days: Seq<Day>, jj: int) -> nat
    decreases jj,
{
    if jj <= 0 {
        0
    } else {
        day_rates_sum(days, jj - 1) + crate::calc::rate_sum(days[jj - 1])
    }
}

proof fn lemma_meals_step(people: Seq<Person>, days: Seq<Day>, kk: int, jj: int)
    requires
        0 <= kk,
    ensures
        owed_by_meals(people, days, kk + 1, jj) == owed_by_meals(people, days, kk, jj) + person_cost_prefix(
            people,
            kk,
            days,
            jj,
        ),
    decreases jj,
{
    if jj > 0 {
        lemma_meals_step(people, days, kk, jj - 1);
    }
}

proof fn lemma_meals_zero(people: Seq<Person>, days: Seq<Day>, jj: int)
    ensures
        owed_by_meals(people, days, 0, jj) == 0,
    decreases jj,
{
    if jj > 0 {
        lemma_meals_zero(people, days, jj - 1);
    }
}

/// Summing person by person or meal by meal gives the same amount.
proof fn lemma_people_meals(people: Seq<Person>, days: Seq<Day>, kk: int, jj: int)
    requires
        0 <= kk,
    ensures
        owed_by_people(people, days, kk, jj) == owed_by_meals(people, days, kk, jj),
    decreases kk,
{
    if kk > 0 {
        lemma_people_meals(people, days, kk - 1, jj);
        lemma_meals_step(people, days, kk - 1, jj);
    } else {
        lemma_meals_zero(people, days, jj);
    }
}

/// Day by day or meal by meal, the rates add up alike.
proof fn lemma_rates_by_day(days: Seq<Day>, jj: int)
    requires
        0 <= jj,
    ensures
        day_rates_sum(days, jj) == all_rates_prefix(days, jj),
    decreases jj,
{
    if jj > 0 {
        lemma_rates_by_day(days, jj - 1);
    }
}

/// A meal with rate zero costs its eaters nothing.
proof fn lemma_free_meal(people: Seq<Person>, days: Seq<Day>, j: int, m: Meal, kk: int)
    requires
        0 <= kk,
        days[j].rate(m) == 0,
    ensures
        eaters_cost_prefix(people, days, j, m, kk) == 0,
    decreases kk,
{
    if kk > 0 {
        lemma_free_meal(people, days, j, m, kk - 1);
        if days[j].attendees(m) > 0 {
            let c = days[j].attendees(m);
            assert(0nat / c == 0 && 0nat % c == 0) by (nonlinear_arith)
                requires
                    c > 0,
            ;
        }
    }
}

/// Where each meal with a rate is counted and eaten, what everybody owes
/// for a day's meal is its rate.
proof fn lemma_meals_cover_rates(people: Seq<Person>, days: Seq<Day>, jj: int)
    requires
        0 <= jj <= days.len(),
        forall|j: int, m: Meal|
            0 <= j < days.len() && #[trigger] days[j].rate(m) > 0 ==> days[j].attendees(m) == attendance_count(people, j, m)
                && days[j].attendees(m) > 0,
    ensures
        owed_by_meals(people, days, people.len() as int, jj) == day_rates_sum(days, jj),
    decreases jj,
{
    if jj > 0 {
        lemma_meals_cover_rates(people, days, jj - 1);
        let j = jj - 1;
        let n = people.len() as int;
        assert forall|m: Meal| #[trigger] eaters_cost_prefix(people, days, j, m, n) == days[j].rate(m) by {
            if days[j].rate(m) > 0 {
                eaters_share_the_rate(people, days, j, m);
            } else {
                lemma_free_meal(people, days, j, m, n);
            }
        }
        assert(eaters_cost_prefix(people, days, j, Meal::Breakfast, n) == days[j].rate(Meal::Breakfast));
        assert(eaters_cost_prefix(people, days, j, Meal::Lunch, n) == days[j].rate(Meal::Lunch));
        assert(eaters_cost_prefix(people, days, j, Meal::Dinner, n) == days[j].rate(Meal::Dinner));
        assert(eaters_cost_prefix(people, days, j, Meal::Snacks, n) == days[j].rate(Meal::Snacks));
    }
}

/// What the first `kk` people recorded as owing add up to.
proof fn lemma_recorded_costs(pre: MoekkiCalcApp, post: MoekkiCalcApp, kk: int)
    requires
        MoekkiCalcApp::costs_updated(pre, post),
        0 <= kk <= post.people@.len(),
    ensures
        cost_sum(post.people@.take(kk)) == owed_by_people(pre.people@, post.days@, kk, post.days@.len() as int),
    decreases kk,
{
    if kk > 0 {
        lemma_recorded_costs(pre, post, kk - 1);
        assert(post.people@.take(kk).drop_last() =~= post.people@.take(kk - 1));
        assert(pre.people@[kk - 1].attendance@.len() == pre.days@.len());
        assert(post.people@[kk - 1].cost == person_cost(pre.people@, kk - 1, post.days@));
    } else {
        assert(post.people@.take(0) =~= Seq::<Person>::empty());
    }
}

/// What everybody owes adds up to the total price, where every expense is
/// flagged for a meal, every meal with a subtotal is served on some day, and
/// every served meal with a subtotal is eaten on each day that serves it, with
/// its count up to date.
pub proof fn costs_cover_total(pre: MoekkiCalcApp, post: MoekkiCalcApp)
    requires
        MoekkiCalcApp::costs_updated(pre, post),
        forall|i: int| 0 <= i < pre.expenses@.len() ==> (#[trigger] pre.expenses@[i]).serving_type.flag_count() > 0,
        forall|m: Meal| #[trigger] meal_subtotal(pre.expenses@, m) > 0 ==> serving_days(pre.days@, m) > 0,
        forall|j: int, m: Meal|
            0 <= j < pre.days@.len() && #[trigger] pre.days@[j].servings.has(m) && meal_subtotal(pre.expenses@, m) > 0
                ==> pre.days@[j].attendees(m) == attendance_count(pre.people@, j, m) && pre.days@[j].attendees(m) > 0,
    ensures
        cost_sum(post.people@) == post.total_cost,
{
    let people = pre.people@;
    let days = post.days@;
    let n = days.len() as int;
    assert forall|j: int, m: Meal|
        0 <= j < days.len() && #[trigger] days[j].rate(m) > 0 implies days[j].attendees(m) == attendance_count(people, j, m)
        && days[j].attendees(m) > 0 by {
        assert(day_inputs_kept(pre.days@[j], days[j]));
        assert(days[j].rate(m) == day_rate(pre.days@, meal_subtotal(pre.expenses@, m), j, m));
        assert(pre.days@[j].servings.has(m));
        if meal_subtotal(pre.expenses@, m) == 0 {
            crate::allocation::lemma_serving_day_counted(pre.days@, m, j, pre.days@.len() as int);
            let c = serving_days(pre.days@, m);
            assert(0nat / c == 0 && 0nat % c == 0) by (nonlinear_arith)
                requires
                    c > 0,
            ;
        }
    }
    lemma_meals_cover_rates(people, days, n);
    lemma_people_meals(people, days, people.len() as int, n);
    lemma_recorded_costs(pre, post, post.people@.len() as int);
    assert(post.people@.take(post.people@.len() as int) =~= post.people@);
    lemma_rates_by_day(days, n);
    assert forall|m: Meal| #[trigger] rates_prefix(days, m, n) == meal_subtotal(pre.expenses@, m) by {
        if serving_days(pre.days@, m) > 0 {
            rates_add_up_to_subtotal(pre, post, m);
        } else {
            assert forall|j: int| 0 <= j < days.len() implies #[trigger] days[j].rate(m) == day_rate(
                pre.days@,
                meal_subtotal(pre.expenses@, m),
                j,
                m,
            ) by {}
            lemma_rates_total(days, pre.days@, m, meal_subtotal(pre.expenses@, m));
        }
    }
    crate::allocation::lemma_subtotals_conserve_prices(pre.expenses@);
}

} // verus!

use moekki_calc::{Attendance, Day, Expense, Meal, MoekkiCalcApp, Person, Servings};

fn trip_with_days(n: usize) -> MoekkiCalcApp {
    let mut t = MoekkiCalcApp::default();
    for _ in 0..n {
        t.add_day();
    }
    t
}

fn only(t: &mut MoekkiCalcApp, expense: usize, meals: &[Meal]) {
    for m in [Meal::Breakfast, Meal::Lunch, Meal::Dinner, Meal::Snacks] {
        t.set_expense_serving(expense, m, meals.contains(&m));
    }
}

fn subtotals(t: &MoekkiCalcApp) -> [u64; 4] {
    [
        t.total_breakfast_cost,
        t.total_lunch_cost,
        t.total_dinner_cost,
        t.total_snacks_cost,
    ]
}

#[test]
fn groceries_split_over_breakfast_and_lunch() {
    let mut t = MoekkiCalcApp::default();
    assert!(t.add_expense("Groceries".to_string(), 100));
    only(&mut t, 0, &[Meal::Breakfast, Meal::Lunch]);
    t.recompute();
    assert_eq!(subtotals(&t), [50, 50, 0, 0]);
    assert_eq!(t.total_cost, 100);
}

#[test]
fn breakfast_spread_over_two_days() {
    let mut t = trip_with_days(2);
    assert!(t.add_expense("Bread".to_string(), 40));
    only(&mut t, 0, &[Meal::Breakfast]);
    t.recompute();
    assert_eq!(t.total_breakfast_cost, 40);
    assert_eq!(t.days[0].breakfast_day_rate, 20);
    assert_eq!(t.days[1].breakfast_day_rate, 20);
    assert_eq!(t.days[0].total_day_rate, 20);
}

#[test]
fn day_rate_divided_among_attendees() {
    let mut t = trip_with_days(1);
    t.add_person("Aino".to_string());
    t.add_person("Ville".to_string());
    assert!(t.add_expense("Porridge".to_string(), 20));
    only(&mut t, 0, &[Meal::Breakfast]);
    t.set_present(0, 0, true);
    t.set_present(1, 0, true);
    t.recompute();
    assert_eq!(t.days[0].breakfast_day_rate, 20);
    assert_eq!(t.days[0].breakfast_attendance_count, 2);
    assert_eq!(t.people[0].cost, 10);
    assert_eq!(t.people[1].cost, 10);
    assert_eq!(t.covered_cost(), Some(20));
}

#[test]
fn subtotals_conserve_even_prices() {
    let mut t = MoekkiCalcApp::default();
    assert!(t.add_expense("Coffee".to_string(), 90));
    assert!(t.add_expense("Pizza".to_string(), 40));
    assert!(t.add_expense("Chips".to_string(), 7));
    only(&mut t, 0, &[Meal::Breakfast, Meal::Lunch, Meal::Snacks]);
    only(&mut t, 1, &[Meal::Lunch, Meal::Dinner, Meal::Snacks, Meal::Breakfast]);
    only(&mut t, 2, &[Meal::Snacks]);
    t.update_costs();
    assert_eq!(subtotals(&t), [40, 40, 10, 47]);
    assert_eq!(subtotals(&t).iter().sum::<u64>(), t.total_cost);
    assert_eq!(t.total_cost, 137);
}

#[test]
fn uneven_split_hands_out_leftover_cents() {
    let mut t = MoekkiCalcApp::default();
    assert!(t.add_expense("Cake".to_string(), 100));
    only(&mut t, 0, &[Meal::Breakfast, Meal::Lunch, Meal::Dinner]);
    t.update_costs();
    assert_eq!(subtotals(&t), [34, 33, 33, 0]);
    assert_eq!(t.total_cost, 100);
}

#[test]
fn leftover_cents_go_to_first_flagged_meals() {
    let mut t = MoekkiCalcApp::default();
    assert!(t.add_expense("Jam".to_string(), 11));
    only(&mut t, 0, &[Meal::Lunch, Meal::Dinner, Meal::Snacks, Meal::Breakfast]);
    assert!(t.add_expense("Tea".to_string(), 5));
    only(&mut t, 1, &[Meal::Dinner, Meal::Snacks]);
    t.update_costs();
    assert_eq!(subtotals(&t), [3, 3, 6, 4]);
    assert_eq!(subtotals(&t).iter().sum::<u64>(), t.total_cost);
}

#[test]
fn day_rates_hand_out_leftover_cents() {
    let mut t = trip_with_days(3);
    assert!(t.add_expense("Coffee".to_string(), 100));
    only(&mut t, 0, &[Meal::Breakfast]);
    t.set_day_serving(1, Meal::Breakfast, false);
    assert!(t.add_expense("Buns".to_string(), 7));
    only(&mut t, 1, &[Meal::Snacks]);
    t.recompute();
    let b: Vec<u64> = t.days.iter().map(|d| d.breakfast_day_rate).collect();
    assert_eq!(b, [50, 0, 50]);
    let s: Vec<u64> = t.days.iter().map(|d| d.snacks_day_rate).collect();
    assert_eq!(s, [3, 2, 2]);
}

#[test]
fn people_share_leftover_cents_in_order() {
    let mut t = trip_with_days(1);
    for name in ["Aino", "Ville", "Kalle"] {
        assert!(t.add_person(name.to_string()));
    }
    assert!(t.add_expense("Sausages".to_string(), 10));
    only(&mut t, 0, &[Meal::Dinner]);
    for k in 0..3 {
        t.set_present(k, 0, true);
    }
    t.recompute();
    let costs: Vec<u64> = t.people.iter().map(|p| p.cost).collect();
    assert_eq!(costs, [4, 3, 3]);
    assert_eq!(t.covered_cost(), Some(t.total_cost));
}

#[test]
fn costs_cover_the_total_when_every_meal_is_eaten() {
    let mut t = trip_with_days(1);
    assert!(t.add_person("Aino".to_string()));
    t.set_present(0, 0, true);
    assert!(t.add_expense("Cake".to_string(), 100));
    only(&mut t, 0, &[Meal::Breakfast, Meal::Lunch, Meal::Dinner]);
    t.recompute();
    assert_eq!(t.people[0].cost, 100);
    assert_eq!(t.covered_cost(), Some(100));
}

#[test]
fn expense_without_meals_counts_only_in_total() {
    let mut t = MoekkiCalcApp::default();
    assert!(t.add_expense("Firewood".to_string(), 25));
    t.update_costs();
    assert_eq!(subtotals(&t), [0, 0, 0, 0]);
    assert_eq!(t.total_cost, 25);
}

#[test]
fn unserved_meal_has_no_rate_and_no_eaters() {
    let mut t = trip_with_days(2);
    t.add_person("Aino".to_string());
    t.set_present(0, 0, true);
    t.set_present(0, 1, true);
    t.set_day_serving(1, Meal::Lunch, false);
    assert!(t.add_expense("Soup".to_string(), 30));
    only(&mut t, 0, &[Meal::Lunch]);
    t.recompute();
    assert!(!t.people[0].attendance[1].servings.lunch);
    assert!(t.people[0].attendance[0].servings.lunch);
    assert_eq!(t.days[1].lunch_day_rate, 0);
    assert_eq!(t.days[0].lunch_day_rate, 30);
    assert_eq!(t.days[0].lunch_attendance_count, 1);
    assert_eq!(t.people[0].cost, 30);
}

#[test]
fn served_meal_nobody_counted_costs_nothing() {
    let mut t = trip_with_days(1);
    t.add_person("Aino".to_string());
    assert!(t.add_expense("Eggs".to_string(), 12));
    only(&mut t, 0, &[Meal::Breakfast]);
    t.recompute();
    assert_eq!(t.days[0].breakfast_attendance_count, 0);
    assert_eq!(t.days[0].breakfast_day_rate, 12);
    // present now, but the counts were not refreshed: the meal still counts nobody
    t.set_present(0, 0, true);
    t.update_costs();
    assert_eq!(t.people[0].cost, 0);
    t.update_attendances();
    t.update_costs();
    assert_eq!(t.people[0].cost, 12);
}

#[test]
fn adding_a_day_extends_every_attendance() {
    let mut t = trip_with_days(1);
    t.add_person("Aino".to_string());
    t.add_person("Ville".to_string());
    t.add_day();
    assert_eq!(t.days.len(), 2);
    assert_eq!(t.days[1].name, "2");
    for p in t.people.iter() {
        assert_eq!(p.attendance.len(), 2);
        let a = &p.attendance[1];
        assert_eq!(a.day_name, "2");
        assert!(!a.present);
        assert!(a.servings.breakfast && a.servings.lunch && a.servings.dinner && a.servings.snacks);
    }
    assert!(t.is_consistent());
}

#[test]
fn day_names_count_in_decimal() {
    let t = trip_with_days(12);
    assert_eq!(t.days[0].name, "1");
    assert_eq!(t.days[9].name, "10");
    assert_eq!(t.days[11].name, "12");
}

#[test]
fn removing_a_day_removes_the_same_attendance() {
    let mut t = trip_with_days(3);
    t.add_person("Aino".to_string());
    t.add_person("Ville".to_string());
    t.set_present(0, 1, true);
    t.set_present(1, 2, true);
    t.remove_day(1);
    t.update_removed();
    assert_eq!(t.days.len(), 2);
    assert_eq!(t.days[0].name, "1");
    assert_eq!(t.days[1].name, "3");
    assert_eq!(t.people[0].attendance.len(), 2);
    assert!(!t.people[0].attendance[0].present && !t.people[0].attendance[1].present);
    assert_eq!(t.people[1].attendance[1].day_name, "3");
    assert!(t.people[1].attendance[1].present);
    assert!(t.days_to_remove.is_empty());
    assert!(t.update_costs);
    assert!(t.is_consistent());
}

#[test]
fn queued_removals_keep_unqueued_positions() {
    let mut t = MoekkiCalcApp::default();
    for name in ["a", "b", "c", "d"] {
        assert!(t.add_expense(name.to_string(), 1));
        t.add_person(name.to_string());
    }
    t.remove_expense(1);
    t.remove_expense(3);
    t.remove_person(0);
    t.remove_person(9);
    t.update_removed();
    let names: Vec<&str> = t.expenses.iter().map(|e| e.name.as_str()).collect();
    assert_eq!(names, ["a", "c"]);
    let names: Vec<&str> = t.people.iter().map(|p| p.name.as_str()).collect();
    assert_eq!(names, ["b", "c", "d"]);
    assert!(t.expenses_to_remove.is_empty() && t.people_to_remove.is_empty());
    assert!(t.update_attendances && t.update_costs);
}

#[test]
fn removal_order_and_repeats_do_not_matter() {
    let mut t = MoekkiCalcApp::default();
    for name in ["a", "b", "c"] {
        assert!(t.add_expense(name.to_string(), 1));
    }
    t.remove_expense(1);
    t.remove_expense(0);
    t.remove_expense(1);
    t.update_removed();
    let names: Vec<&str> = t.expenses.iter().map(|e| e.name.as_str()).collect();
    assert_eq!(names, ["c"]);
    assert!(!t.update_attendances);
    assert!(t.update_costs);
}

#[test]
fn removing_days_in_any_order_keeps_attendance_aligned() {
    let mut t = trip_with_days(4);
    assert!(t.add_person("Aino".to_string()));
    t.set_present(0, 2, true);
    t.remove_day(0);
    t.remove_day(3);
    t.remove_day(1);
    t.update_removed();
    assert_eq!(t.days.len(), 1);
    assert_eq!(t.days[0].name, "3");
    assert_eq!(t.people[0].attendance.len(), 1);
    assert_eq!(t.people[0].attendance[0].day_name, "3");
    assert!(t.people[0].attendance[0].present);
}

#[test]
fn recompute_twice_changes_nothing() {
    let mut t = trip_with_days(3);
    t.add_person("Aino".to_string());
    t.add_person("Ville".to_string());
    t.add_person("Kalle".to_string());
    assert!(t.add_expense("Food".to_string(), 997));
    assert!(t.add_expense("Drinks".to_string(), 301));
    only(&mut t, 1, &[Meal::Dinner, Meal::Snacks]);
    only(&mut t, 0, &[Meal::Breakfast, Meal::Lunch, Meal::Dinner]);
    t.set_day_serving(0, Meal::Breakfast, false);
    for k in 0..3 {
        for j in 0..3 {
            t.set_present(k, j, (k + j) % 2 == 0);
        }
    }
    t.set_attendance_serving(2, 2, Meal::Snacks, false);
    t.recompute();
    let snapshot = |t: &MoekkiCalcApp| {
        let days: Vec<(u64, [u64; 4], [usize; 4])> = t
            .days
            .iter()
            .map(|d| {
                (
                    d.total_day_rate,
                    [d.breakfast_day_rate, d.lunch_day_rate, d.dinner_day_rate, d.snacks_day_rate],
                    [
                        d.breakfast_attendance_count,
                        d.lunch_attendance_count,
                        d.dinner_attendance_count,
                        d.snacks_attendance_count,
                    ],
                )
            })
            .collect();
        let costs: Vec<u64> = t.people.iter().map(|p| p.cost).collect();
        (days, costs, subtotals(t), t.total_cost)
    };
    let first = snapshot(&t);
    t.recompute();
    assert_eq!(snapshot(&t), first);
    assert_eq!(first.3, 1298);
}

#[test]
fn add_expense_refuses_bad_input() {
    let mut t = MoekkiCalcApp::default();
    assert!(!t.add_expense(String::new(), 5));
    assert!(!t.add_expense("Free".to_string(), 0));
    assert!(t.add_expense("Big".to_string(), u64::MAX - 1));
    assert!(!t.add_expense("Overflow".to_string(), 2));
    assert!(t.add_expense("Fits".to_string(), 1));
    assert_eq!(t.expenses.len(), 2);
    assert_eq!(t.price_total(), u64::MAX);
}

#[test]
fn misaligned_attendance_is_inconsistent() {
    let mut t = trip_with_days(2);
    t.add_person("Aino".to_string());
    assert!(t.is_consistent());
    t.people[0].attendance.pop();
    assert!(!t.is_consistent());
}

#[test]
fn covered_cost_reports_overflow() {
    let mut t = MoekkiCalcApp::default();
    t.add_person("A".to_string());
    t.add_person("B".to_string());
    t.people[0].cost = u64::MAX;
    t.people[1].cost = 1;
    assert_eq!(t.covered_cost(), None);
    t.people[1].cost = 0;
    assert_eq!(t.covered_cost(), Some(u64::MAX));
}

#[test]
fn reset_clears_everything() {
    let mut t = trip_with_days(2);
    t.add_person("Aino".to_string());
    assert!(t.add_expense("x".to_string(), 3));
    t.recompute();
    t.remove_day(0);
    t.reset();
    assert!(t.days.is_empty() && t.people.is_empty() && t.expenses.is_empty());
    assert!(t.days_to_remove.is_empty());
    assert_eq!(t.total_cost, 0);
    assert_eq!(subtotals(&t), [0, 0, 0, 0]);
    assert!(t.is_consistent());
}

#[test]
fn constructors_start_from_defaults() {
    let s = Servings::new();
    assert!(s.breakfast && s.lunch && s.dinner && s.snacks);
    let d = Servings::default();
    assert!(!d.breakfast && !d.lunch && !d.dinner && !d.snacks);
    assert_eq!(d.count(), 0);
    assert_eq!(s.count(), 4);
    let a = Attendance::new("1".to_string());
    assert_eq!(a.day_name, "1");
    assert!(!a.present);
    assert!(a.servings.get(Meal::Snacks));
    let e = Expense::new("Sauna beer".to_string(), 1250);
    assert_eq!(e.price, 1250);
    assert_eq!(e.serving_type.count(), 0);
    let day = Day::new("7".to_string());
    assert_eq!(day.total_day_rate, 0);
    assert_eq!(day.rate_of(Meal::Dinner), 0);
    let days = vec![Day::new("1".to_string()), Day::new("2".to_string())];
    let p = Person::new("Aino".to_string(), &days);
    assert_eq!(p.attendance.len(), 2);
    assert_eq!(p.attendance[1].day_name, "2");
    assert_eq!(p.cost, 0);
}

#[test]
fn servings_setters_touch_one_meal() {
    let mut s = Servings::new();
    s.set(Meal::Dinner, false);
    assert!(s.breakfast && s.lunch && !s.dinner && s.snacks);
    let both = s.and(&Servings { breakfast: false, lunch: true, dinner: true, snacks: true });
    assert_eq!(both, Servings { breakfast: false, lunch: true, dinner: false, snacks: true });
}

#[test]
fn add_person_refuses_empty_name() {
    let mut t = trip_with_days(1);
    assert!(!t.add_person(String::new()));
    assert!(t.people.is_empty());
    assert!(t.add_person("Aino".to_string()));
    assert_eq!(t.people.len(), 1);
    assert_eq!(t.people[0].attendance.len(), 1);
}

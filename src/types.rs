use vstd::prelude::*;

verus! {

/// One of the four meal categories.
#[derive(Clone, Copy, PartialEq, Eq, Structural, Debug)]
pub enum Meal {
    Breakfast,
    Lunch,
    Dinner,
    Snacks,
}

/// Which of the four meals a record applies to.
#[derive(Clone, Copy, PartialEq, Eq, Structural, Debug)]
pub struct Servings {
    pub breakfast: bool,
    pub lunch: bool,
    pub dinner: bool,
    pub snacks: bool,
}

impl Servings {
    pub open spec fn has(self, m: Meal) -> bool {
        match m {
            Meal::Breakfast => self.breakfast,
            Meal::Lunch => self.lunch,
            Meal::Dinner => self.dinner,
            Meal::Snacks => self.snacks,
        }
    }

    /// Number of flags that are set.
    pub open spec fn flag_count(self) -> nat {
        (if self.breakfast { 1nat } else { 0nat }) + (if self.lunch { 1nat } else { 0nat })
            + (if self.dinner { 1nat } else { 0nat }) + (if self.snacks { 1nat } else { 0nat })
    }

    /// All four meals served.
    pub fn new() -> (r: Servings)
        ensures
            forall|m: Meal| r.has(m),
    {
        Servings { breakfast: true, lunch: true, dinner: true, snacks: true }
    }

    /// Whether meal `m` is flagged.
    pub fn get(&self, m: Meal) -> (r: bool)
        ensures
            r == self.has(m),
    {
        match m {
            Meal::Breakfast => self.breakfast,
            Meal::Lunch => self.lunch,
            Meal::Dinner => self.dinner,
            Meal::Snacks => self.snacks,
        }
    }

    /// Sets the flag of meal `m`, leaving the other three as they were.
    pub fn set(&mut self, m: Meal, v: bool)
        ensures
            final(self).has(m) == v,
            forall|o: Meal| o != m ==> final(self).has(o) == old(self).has(o),
    {
        match m {
            Meal::Breakfast => self.breakfast = v,
            Meal::Lunch => self.lunch = v,
            Meal::Dinner => self.dinner = v,
            Meal::Snacks => self.snacks = v,
        }
    }

    /// The meals flagged both here and in `other`.
    pub fn and(&self, other: &Servings) -> (r: Servings)
        ensures
            forall|m: Meal| r.has(m) == (self.has(m) && other.has(m)),
    {
        Servings {
            breakfast: self.breakfast && other.breakfast,
            lunch: self.lunch && other.lunch,
            dinner: self.dinner && other.dinner,
            snacks: self.snacks && other.snacks,
        }
    }

    /// Number of flags that are set.
    pub fn count(&self) -> (r: u64)
        ensures
            r == self.flag_count(),
            r <= 4,
    {
        let mut n: u64 = 0;
        if self.breakfast {
            n = n + 1;
        }
        if self.lunch {
            n = n + 1;
        }
        if self.dinner {
            n = n + 1;
        }
        if self.snacks {
            n = n + 1;
        }
        n
    }
}

/// No meal flagged.
impl Default for Servings {
    fn default() -> (r: Servings)
        ensures
            forall|m: Meal| !r.has(m),
    {
        Servings { breakfast: false, lunch: false, dinner: false, snacks: false }
    }
}

/// A day of the trip. Amounts are in cents. The rates and attendance counts
/// are derived and written only by the recomputation passes.
pub struct Day {
    pub name: String,
    pub servings: Servings,
    pub total_day_rate: u64,
    pub breakfast_day_rate: u64,
    pub breakfast_attendance_count: usize,
    pub lunch_day_rate: u64,
    pub lunch_attendance_count: usize,
    pub dinner_day_rate: u64,
    pub dinner_attendance_count: usize,
    pub snacks_day_rate: u64,
    pub snacks_attendance_count: usize,
}

impl Day {
    pub open spec fn rate(self, m: Meal) -> nat {
        match m {
            Meal::Breakfast => self.breakfast_day_rate as nat,
            Meal::Lunch => self.lunch_day_rate as nat,
            Meal::Dinner => self.dinner_day_rate as nat,
            Meal::Snacks => self.snacks_day_rate as nat,
        }
    }

    pub open spec fn attendees(self, m: Meal) -> nat {
        match m {
            Meal::Breakfast => self.breakfast_attendance_count as nat,
            Meal::Lunch => self.lunch_attendance_count as nat,
            Meal::Dinner => self.dinner_attendance_count as nat,
            Meal::Snacks => self.snacks_attendance_count as nat,
        }
    }

    /// A day that serves every meal, with all derived fields at zero.
    pub fn new(name: String) -> (r: Day)
        ensures
            r.name@ == name@,
            forall|m: Meal| r.servings.has(m),
            forall|m: Meal| r.rate(m) == 0 && r.attendees(m) == 0,
            r.total_day_rate == 0,
    {
        Day {
            name,
            servings: Servings::new(),
            total_day_rate: 0,
            breakfast_day_rate: 0,
            breakfast_attendance_count: 0,
            lunch_day_rate: 0,
            lunch_attendance_count: 0,
            dinner_day_rate: 0,
            dinner_attendance_count: 0,
            snacks_day_rate: 0,
            snacks_attendance_count: 0,
        }
    }

    /// The day rate of meal `m`.
    pub fn rate_of(&self, m: Meal) -> (r: u64)
        ensures
            r as nat == self.rate(m),
    {
        match m {
            Meal::Breakfast => self.breakfast_day_rate,
            Meal::Lunch => self.lunch_day_rate,
            Meal::Dinner => self.dinner_day_rate,
            Meal::Snacks => self.snacks_day_rate,
        }
    }

    /// The attendance count of meal `m`.
    pub fn attendees_of(&self, m: Meal) -> (r: usize)
        ensures
            r as nat == self.attendees(m),
    {
        match m {
            Meal::Breakfast => self.breakfast_attendance_count,
            Meal::Lunch => self.lunch_attendance_count,
            Meal::Dinner => self.dinner_attendance_count,
            Meal::Snacks => self.snacks_attendance_count,
        }
    }

    /// Sets the day rate of meal `m`; nothing else changes.
    pub fn set_rate(&mut self, m: Meal, v: u64)
        ensures
            final(self).rate(m) == v as nat,
            forall|o: Meal| o != m ==> final(self).rate(o) == old(self).rate(o),
            forall|o: Meal| final(self).attendees(o) == old(self).attendees(o),
            final(self).name == old(self).name,
            final(self).servings == old(self).servings,
            final(self).total_day_rate == old(self).total_day_rate,
    {
        match m {
            Meal::Breakfast => self.breakfast_day_rate = v,
            Meal::Lunch => self.lunch_day_rate = v,
            Meal::Dinner => self.dinner_day_rate = v,
            Meal::Snacks => self.snacks_day_rate = v,
        }
    }

    /// Sets the attendance count of meal `m`; nothing else changes.
    pub fn set_attendees(&mut self, m: Meal, v: usize)
        ensures
            final(self).attendees(m) == v as nat,
            forall|o: Meal| o != m ==> final(self).attendees(o) == old(self).attendees(o),
            forall|o: Meal| final(self).rate(o) == old(self).rate(o),
            final(self).name == old(self).name,
            final(self).servings == old(self).servings,
            final(self).total_day_rate == old(self).total_day_rate,
    {
        match m {
            Meal::Breakfast => self.breakfast_attendance_count = v,
            Meal::Lunch => self.lunch_attendance_count = v,
            Meal::Dinner => self.dinner_attendance_count = v,
            Meal::Snacks => self.snacks_attendance_count = v,
        }
    }
}

/// A shared expense, with its price in cents and the meals it is split across.
pub struct Expense {
    pub name: String,
    pub price: u64,
    pub serving_type: Servings,
}

impl Expense {
    /// An expense assigned to no meal yet.
    pub fn new(name: String, price: u64) -> (r: Expense)
        ensures
            r.name@ == name@,
            r.price == price,
            forall|m: Meal| !r.serving_type.has(m),
    {
        Expense { name, price, serving_type: Servings::default() }
    }
}

/// What one person eats on one day.
pub struct Attendance {
    pub day_name: String,
    pub present: bool,
    pub servings: Servings,
}

impl Attendance {
    /// Not present, every meal selected.
    pub fn new(day_name: String) -> (r: Attendance)
        ensures
            r.day_name@ == day_name@,
            !r.present,
            forall|m: Meal| r.servings.has(m),
    {
        Attendance { day_name, present: false, servings: Servings::new() }
    }
}

/// A participant, with one attendance record per day, in the order of the days.
pub struct Person {
    pub name: String,
    pub attendance: Vec<Attendance>,
    pub cost: u64,
}

impl Person {
    /// A person absent from every one of `days`, owing nothing.
    pub fn new(name: String, days: &[Day]) -> (r: Person)
        ensures
            r.name@ == name@,
            r.cost == 0,
            r.attendance@.len() == days@.len(),
            forall|i: int|
                0 <= i < days@.len() ==> {
                    &&& r.attendance@[i].day_name@ == days@[i].name@
                    &&& !r.attendance@[i].present
                    &&& forall|m: Meal| r.attendance@[i].servings.has(m)
                },
    {
        let mut attendance: Vec<Attendance> = Vec::new();
        let mut i: usize = 0;
        while i < days.len()
            invariant
                i <= days@.len(),
                attendance@.len() == i,
                forall|j: int|
                    0 <= j < i ==> {
                        &&& attendance@[j].day_name@ == days@[j].name@
                        &&& !attendance@[j].present
                        &&& forall|m: Meal| attendance@[j].servings.has(m)
                    },
            decreases days@.len() - i,
        {
            attendance.push(Attendance::new(days[i].name.clone()));
            i = i + 1;
        }
        Person { name, attendance, cost: 0 }
    }
}

} // verus!

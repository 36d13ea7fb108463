use vstd::prelude::*;

verus! {

/// The single active target consumption profile. Targets are volumes in
/// hundredths of a millilitre; both must be non-negative. Replacing the goal
/// discards the prior one entirely.
pub struct ConsumptionGoal {
    pub id: String,
    pub daily_target: i64,
    pub weekly_target: i64,
    pub start_date: String,
    pub end_date: String,
}

/// The mathematical image of a goal.
pub ghost struct GoalView {
    pub id: Seq<char>,
    pub daily_target: int,
    pub weekly_target: int,
    pub start_date: Seq<char>,
    pub end_date: Seq<char>,
}

impl View for ConsumptionGoal {
    type V = GoalView;

    open spec fn view(&self) -> GoalView {
        GoalView {
            id: self.id@,
            daily_target: self.daily_target as int,
            weekly_target: self.weekly_target as int,
            start_date: self.start_date@,
            end_date: self.end_date@,
        }
    }
}

/// The validation rule for a goal: both targets non-negative.
pub open spec fn valid_goal(g: GoalView) -> bool {
    g.daily_target >= 0 && g.weekly_target >= 0
}

impl Clone for ConsumptionGoal {
    fn clone(&self) -> (r: Self)
        ensures
            r == *self,
    {
        ConsumptionGoal {
            id: self.id.clone(),
            daily_target: self.daily_target,
            weekly_target: self.weekly_target,
            start_date: self.start_date.clone(),
            end_date: self.end_date.clone(),
        }
    }
}

} // verus!

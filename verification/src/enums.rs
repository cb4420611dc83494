use vstd::prelude::*;

verus! {

/// The state of a running copy job, as set by the user interface and
/// read by the copy worker.
#[derive(Debug, Clone, Copy, PartialEq, Eq, Structural)]
pub enum ProgressStatus {
    Start,
    Stop,
    Continue,
    Exit,
    Finish,
}

/// The number by which a status travels to and from the user interface.
pub open spec fn status_number(s: ProgressStatus) -> int {
    match s {
        ProgressStatus::Start => 0,
        ProgressStatus::Stop => 1,
        ProgressStatus::Continue => 2,
        ProgressStatus::Exit => 3,
        ProgressStatus::Finish => 4,
    }
}

/// The status that a number from the user interface stands for; every
/// number outside `0..=4` stands for `Finish`.
pub open spec fn status_of_number(idx: int) -> ProgressStatus {
    if idx == 0 {
        ProgressStatus::Start
    } else if idx == 1 {
        ProgressStatus::Stop
    } else if idx == 2 {
        ProgressStatus::Continue
    } else if idx == 3 {
        ProgressStatus::Exit
    } else {
        ProgressStatus::Finish
    }
}

impl Default for ProgressStatus {
    fn default() -> (s: Self)
        ensures
            s == ProgressStatus::Start,
    {
        ProgressStatus::Start
    }
}

impl ProgressStatus {
    pub fn to_num(self) -> (num: i32)
        ensures
            num == status_number(self),
    {
        let num = match self {
            ProgressStatus::Start => 0,
            ProgressStatus::Stop => 1,
            ProgressStatus::Continue => 2,
            ProgressStatus::Exit => 3,
            ProgressStatus::Finish => 4,
        };
        num
    }

    pub fn from_num(idx: i32) -> (s: Self)
        ensures
            s == status_of_number(idx as int),
    {
        match idx {
            0 => ProgressStatus::Start,
            1 => ProgressStatus::Stop,
            2 => ProgressStatus::Continue,
            3 => ProgressStatus::Exit,
            4 => ProgressStatus::Finish,
            _ => ProgressStatus::Finish,
        }
    }
}

/// A field update of the shared progress: leave the field as it is, or
/// give it a new value.
#[derive(Debug, Clone, Copy, PartialEq, Eq, Structural)]
pub enum StaticVarsType<T> {
    Update(T),
    Keep,
}

/// The value a field holds after the update `u` is applied to `current`.
pub open spec fn updated<T>(u: StaticVarsType<T>, current: T) -> T {
    match u {
        StaticVarsType::Update(t) => t,
        StaticVarsType::Keep => current,
    }
}

/// A status survives the trip to its number and back.
pub proof fn lemma_status_number_round_trip(s: ProgressStatus)
    ensures
        status_of_number(status_number(s)) == s,
        0 <= status_number(s) <= 4,
{
}

/// A number in `0..=4` survives the trip to its status and back; every
/// other number comes back as the number of `Finish`.
pub proof fn lemma_number_status_round_trip(idx: int)
    ensures
        0 <= idx <= 4 ==> status_number(status_of_number(idx)) == idx,
        !(0 <= idx <= 4) ==> status_of_number(idx) == ProgressStatus::Finish,
{
}

/// Distinct statuses have distinct numbers.
pub proof fn lemma_status_number_injective(a: ProgressStatus, b: ProgressStatus)
    ensures
        status_number(a) == status_number(b) <==> a == b,
{
}

} // verus!

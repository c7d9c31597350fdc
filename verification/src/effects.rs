//! Weather states and the order in which the weather cycles through them.
use vstd::prelude::*;

verus! {

/// Weather states for the world.
#[derive(Clone, Copy, Debug, PartialEq, Eq, Structural)]
pub enum WeatherState {
    Clear,
    Rain,
    Snow,
}

/// The state the weather moves to when the current one has run its course:
/// clear, then rain, then snow, then clear again.
pub open spec fn spec_next_weather(s: WeatherState) -> WeatherState {
    match s {
        WeatherState::Clear => WeatherState::Rain,
        WeatherState::Rain => WeatherState::Snow,
        WeatherState::Snow => WeatherState::Clear,
    }
}

impl WeatherState {
    /// The weather that follows this one in the automatic cycle.
    pub fn next(self) -> (r: WeatherState)
        ensures
            r == spec_next_weather(self),
    {
        match self {
            WeatherState::Clear => WeatherState::Rain,
            WeatherState::Rain => WeatherState::Snow,
            WeatherState::Snow => WeatherState::Clear,
        }
    }
}

/// The automatic cycle visits every state and returns to where it started
/// after three transitions, never staying put.
pub proof fn lemma_weather_cycle(s: WeatherState)
    ensures
        spec_next_weather(spec_next_weather(spec_next_weather(s))) == s,
        spec_next_weather(s) != s,
{
}

} // verus!

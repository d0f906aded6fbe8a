//! State of the main window's bar chart selector.
use vstd::prelude::*;

verus! {

/// Which reading the per-core bar chart shows.
#[derive(Debug, Clone, Copy, PartialEq, Eq, Structural)]
pub enum BarChartState {
    Usage,
    Power,
}

/// An event of the main window.
#[derive(Debug, Clone, Copy, PartialEq, Eq, Structural)]
pub enum Message {
    UsageButtonPressed,
    PowerButtonPressed,
    ToggleGeneralInfo,
    ToggleCoresCard,
    /// A frame of an animation.
    Tick,
}

/// The bar chart selection after `message`: the two buttons choose the
/// reading, every other event keeps the current one.
pub fn next_bar_chart_state(current: BarChartState, message: Message) -> (r: BarChartState)
    ensures
        r == match message {
            Message::UsageButtonPressed => BarChartState::Usage,
            Message::PowerButtonPressed => BarChartState::Power,
            _ => current,
        },
{
    match message {
        Message::UsageButtonPressed => BarChartState::Usage,
        Message::PowerButtonPressed => BarChartState::Power,
        _ => current,
    }
}

} // verus!

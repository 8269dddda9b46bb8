//! Diagnostic lines, for those who ask for them.

use crate::text;
use vstd::prelude::*;

verus! {

/// Whether diagnostic lines are wanted.
#[derive(Clone, Copy, Debug, PartialEq, Eq, Structural)]
pub struct Verbosity {
    pub on: bool,
}

impl Verbosity {
    /// The start: no diagnostic lines are wanted until they are turned on.
    pub fn new() -> (r: Self)
        ensures
            r == started(),
    {
        Verbosity { on: false }
    }
}

/// The start: off.
pub open spec fn started() -> Verbosity {
    Verbosity { on: false }
}

/// What turning the lines on or off makes of a setting.
pub open spec fn turned(verbosity: Verbosity, on: bool) -> Verbosity {
    Verbosity { on, ..verbosity }
}

/// The setting after it was turned on or off a number of times, in order.
pub open spec fn turned_all(verbosity: Verbosity, settings: Seq<bool>) -> Verbosity
    decreases settings.len(),
{
    if settings.len() == 0 {
        verbosity
    } else {
        turned(turned_all(verbosity, settings.drop_last()), settings.last())
    }
}

/// The last setting counts; where there was none, the lines are off.
pub proof fn last_setting_counts(settings: Seq<bool>)
    ensures
        turned_all(started(), settings).on == (settings.len() > 0 && settings.last()),
{
}

/// Turns the diagnostic lines on or off.
pub fn set_enabled(verbosity: &mut Verbosity, on: bool)
    ensures
        *final(verbosity) == turned(*old(verbosity), on),
{
    verbosity.on = on;
}

/// Whether diagnostic lines are wanted.
pub fn enabled(verbosity: &Verbosity) -> (r: bool)
    ensures
        r == verbosity.on,
{
    verbosity.on
}

/// The line that a message is logged as, where it is.
pub fn log(verbosity: &Verbosity, message: &str) -> (r: Option<String>)
    ensures
        text::maybe(r) == (if verbosity.on {
            Some("[ia-get] "@ + message@)
        } else {
            None
        }),
{
    if verbosity.on {
        Some(text::concat("[ia-get] ", message))
    } else {
        None
    }
}

} // verus!

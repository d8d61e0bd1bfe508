//! Which device draws, and when it is made anew.

use vstd::prelude::*;

verus! {

/// What draws.
#[derive(Clone, Copy, Debug, PartialEq, Eq, Structural)]
pub enum DriverType {
    Hardware,
    /// The software that stands in for it.
    Warp,
}

/// Why there is no device.
#[derive(Clone, Copy, Debug, PartialEq, Eq, Structural)]
pub enum DeviceError {
    /// Neither could be made.
    NoDevice,
    /// It is in use further up.
    InUse,
}

/// Picks what draws: the hardware, or the software where that fails.
pub fn choose_driver(hardware_works: bool, warp_works: bool) -> (result: Result<
    DriverType,
    DeviceError,
>)
    ensures
        result == (if hardware_works {
            Ok(DriverType::Hardware)
        } else if warp_works {
            Ok(DriverType::Warp)
        } else {
            Err(DeviceError::NoDevice)
        }),
{
    if hardware_works {
        Ok(DriverType::Hardware)
    } else if warp_works {
        Ok(DriverType::Warp)
    } else {
        Err(DeviceError::NoDevice)
    }
}

/// Whether a device that all share has to be made: there is none yet, or the
/// one that is there was lost.
pub fn needs_new_device(is_present: bool, was_lost: bool) -> (result: bool)
    ensures
        result == (!is_present || was_lost),
{
    !is_present || was_lost
}

/// The device of a thread.
#[derive(Clone, Copy, Debug, PartialEq, Eq, Structural)]
pub struct DeviceSlot {
    pub is_present: bool,
    pub in_use: bool,
}

impl DeviceSlot {
    pub fn new() -> (slot: DeviceSlot)
        ensures
            slot == (DeviceSlot { is_present: false, in_use: false }),
    {
        DeviceSlot { is_present: false, in_use: false }
    }

    /// Takes the device into use; `can_create` says whether one can be made.
    /// Returns whether it was made for this use.
    pub fn acquire(&mut self, can_create: bool) -> (result: Result<bool, DeviceError>)
        ensures
            match result {
                Ok(is_new) => {
                    &&& !old(self).in_use
                    &&& is_new == !old(self).is_present
                    &&& is_new ==> can_create
                    &&& *final(self) == (DeviceSlot { is_present: true, in_use: true })
                },
                Err(e) => {
                    &&& *final(self) == *old(self)
                    &&& if old(self).in_use {
                        e == DeviceError::InUse
                    } else {
                        e == DeviceError::NoDevice && !old(self).is_present && !can_create
                    }
                },
            },
    {
        if self.in_use {
            return Err(DeviceError::InUse);
        }
        let is_new: bool = !self.is_present;
        if is_new && !can_create {
            return Err(DeviceError::NoDevice);
        }
        self.is_present = true;
        self.in_use = true;
        Ok(is_new)
    }

    /// Ends the use of the device.
    pub fn release(&mut self)
        ensures
            *final(self) == (DeviceSlot { in_use: false, ..*old(self) }),
    {
        self.in_use = false;
    }

    /// Lets go of the device, so that the next use makes a new one. A device
    /// in use stays.
    pub fn reset(&mut self)
        ensures
            *final(self) == (if old(self).in_use {
                *old(self)
            } else {
                DeviceSlot { is_present: false, ..*old(self) }
            }),
    {
        if !self.in_use {
            self.is_present = false;
        }
    }
}

/// How a window is filled by the compositor of the system.
#[derive(Clone, Copy, Debug, PartialEq, Eq, Structural)]
pub enum AccentState {
    /// With a color.
    Gradient,
    /// With a translucent color.
    TransparentGradient,
    /// With what is behind, blurred.
    BlurBehind,
    /// With what is behind, as if through frosted glass.
    AcrylicBlurBehind,
    /// With what is behind, for the compositor to draw on.
    HostBackdrop,
}

/// What the compositor is told of a window.
#[derive(Clone, Copy, Debug, PartialEq, Eq, Structural)]
pub struct AccentPolicy {
    pub accent_state: u32,
    pub accent_flags: u32,
    pub gradient_color: u32,
    pub animation_id: u32,
}

/// The flag that says that the color of the policy counts.
pub const ACCENT_FLAG_USE_GRADIENT_COLOR: u32 = 2;

/// The number that the system knows a state by.
pub open spec fn accent_number(state: AccentState) -> u32 {
    match state {
        AccentState::Gradient => 1,
        AccentState::TransparentGradient => 2,
        AccentState::BlurBehind => 3,
        AccentState::AcrylicBlurBehind => 4,
        AccentState::HostBackdrop => 5,
    }
}

/// What the compositor is told to fill a window, with no flags.
pub fn accent_policy(state: AccentState, gradient_color: u32) -> (result: AccentPolicy)
    ensures
        result == (AccentPolicy {
            accent_state: accent_number(state),
            accent_flags: 0,
            gradient_color,
            animation_id: 0,
        }),
{
    accent_policy_with_flags(state, 0, gradient_color)
}

/// What the compositor is told to fill a window.
pub fn accent_policy_with_flags(state: AccentState, accent_flags: u32, gradient_color: u32) -> (
    result: AccentPolicy)
    ensures
        result == (AccentPolicy {
            accent_state: accent_number(state),
            accent_flags,
            gradient_color,
            animation_id: 0,
        }),
{
    let accent_state: u32 = match state {
        AccentState::Gradient => 1,
        AccentState::TransparentGradient => 2,
        AccentState::BlurBehind => 3,
        AccentState::AcrylicBlurBehind => 4,
        AccentState::HostBackdrop => 5,
    };
    AccentPolicy { accent_state, accent_flags, gradient_color, animation_id: 0 }
}

/// Each way to fill a window has the number that the system knows it by.
pub proof fn fillings_have_their_numbers(a: AccentState, b: AccentState)
    ensures
        accent_number(AccentState::Gradient) == 1,
        accent_number(AccentState::TransparentGradient) == 2,
        accent_number(AccentState::BlurBehind) == 3,
        accent_number(AccentState::AcrylicBlurBehind) == 4,
        accent_number(AccentState::HostBackdrop) == 5,
        accent_number(a) == accent_number(b) ==> a == b,
        ACCENT_FLAG_USE_GRADIENT_COLOR == 2,
{
}

} // verus!

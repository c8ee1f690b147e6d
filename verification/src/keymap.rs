//! Key codes between the evdev and Mac numberings, as the `keycode` crate's
//! table (Chrome's key code data) gives them.
use vstd::prelude::*;

verus! {

/// The evdev code of the Mac virtual key code `code`, where the table has
/// one: a function of `code` alone.
pub uninterp spec fn mac_to_evdev(code: u16) -> Option<u16>;

/// The Mac virtual key code of the evdev code `code`, where the table has
/// one: a function of `code` alone.
pub uninterp spec fn evdev_to_mac(code: u16) -> Option<u16>;

#[verifier::external_body]
/// `keycode::KeyMap::from_key_mapping(KeyMapping::Mac(code))`, taken by its
/// `evdev` field: the result is named `mac_to_evdev`; which codes the table
/// holds is not stated.
pub(crate) fn mac_key_to_evdev(code: u16) -> (r: Option<u16>)
    ensures
        r == mac_to_evdev(code),
{
    match keycode::KeyMap::from_key_mapping(keycode::KeyMapping::Mac(code)) {
        Ok(k) => Some(k.evdev),
        Err(()) => None,
    }
}

#[verifier::external_body]
/// `keycode::KeyMap::from_key_mapping(KeyMapping::Evdev(code))`, taken by its
/// `mac` field: the result is named `evdev_to_mac`; which codes the table
/// holds is not stated.
pub(crate) fn evdev_key_to_mac(code: u16) -> (r: Option<u16>)
    ensures
        r == evdev_to_mac(code),
{
    match keycode::KeyMap::from_key_mapping(keycode::KeyMapping::Evdev(code)) {
        Ok(k) => Some(k.mac),
        Err(()) => None,
    }
}

} // verus!

//! Conversion of Hue bridge lights into devices.  The float colour
//! conversion itself lives outside the verified core; the light model
//! carries the bridge's native colour values.

use vstd::prelude::*;

verus! {

/// The state a bridge reports for one light.
#[derive(Clone, Debug)]
pub struct BridgeLightState {
    pub on: bool,
    pub bri: Option<u8>,
    pub hue: Option<u16>,
    pub sat: Option<u8>,
}

/// One light as the bridge reports it.
#[derive(Clone, Debug)]
pub struct BridgeLight {
    pub name: String,
    pub state: BridgeLightState,
}

/// A colour in the bridge's native terms: hue angle, saturation and
/// brightness as the bridge encodes them.
#[derive(Clone, Copy, Debug, PartialEq, Eq, Structural)]
pub struct ColorValue {
    pub hue: u16,
    pub sat: u8,
    pub bri: u8,
}

/// A light in the core's terms.
#[derive(Clone, Debug)]
pub struct Light {
    pub power: bool,
    pub brightness: Option<u8>,
    pub color: Option<ColorValue>,
}

/// What a device does.
#[derive(Clone, Debug)]
pub enum DeviceKind {
    Light(Light),
}

/// A device as an integration hands it over.
#[derive(Clone, Debug)]
pub struct Device {
    pub id: String,
    pub name: String,
    pub integration_id: String,
    pub scene: Option<String>,
    pub kind: DeviceKind,
}

/// The colour of a bridge light, present only when the bridge reports
/// all three components.
pub open spec fn bridge_color(s: BridgeLightState) -> Option<ColorValue> {
    match (s.hue, s.sat, s.bri) {
        (Some(h), Some(st), Some(b)) => Some(ColorValue { hue: h, sat: st, bri: b }),
        _ => None,
    }
}

/// Converts a bridge light into the core's light model: power follows
/// the bridge's on flag, brightness is left unset, and the colour is
/// carried over when the bridge reports one.
pub fn to_light(bridge_light: BridgeLight) -> (r: Light)
    ensures
        r.power == bridge_light.state.on,
        r.brightness is None,
        r.color == bridge_color(bridge_light.state),
{
    let color: Option<ColorValue> = match (
        bridge_light.state.hue,
        bridge_light.state.sat,
        bridge_light.state.bri,
    ) {
        (Some(h), Some(st), Some(b)) => Some(ColorValue { hue: h, sat: st, bri: b }),
        _ => None,
    };
    Light { power: bridge_light.state.on, brightness: None, color }
}

/// Wraps a bridge light as a device of the given integration: the
/// bridge's name, no scene, and the converted light.
pub fn bridge_light_to_device(id: String, integration_id: String, bridge_light: BridgeLight)
    -> (r: Device)
    ensures
        r.id@ == id@,
        r.name@ == bridge_light.name@,
        r.integration_id@ == integration_id@,
        r.scene is None,
        match r.kind {
            DeviceKind::Light(l) => l.power == bridge_light.state.on && l.brightness is None
                && l.color == bridge_color(bridge_light.state),
        },
{
    let name: String = bridge_light.name.clone();
    let kind = DeviceKind::Light(to_light(bridge_light));
    Device { id, name, integration_id, scene: None, kind }
}

} // verus!

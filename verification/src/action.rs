//! The domain actions one evaluation hands off for execution
//! elsewhere.

use vstd::prelude::*;
use crate::device::{Device, DeviceS};

verus! {

/// Request to activate a scene, optionally scoped to devices or
/// groups.
#[derive(Clone, Debug)]
pub struct SceneDescriptor {
    pub scene_id: String,
    pub device_keys: Option<Vec<String>>,
    pub group_keys: Option<Vec<String>>,
}

pub ghost struct SceneDescriptorS {
    pub scene_id: Seq<char>,
    pub device_keys: Option<Seq<Seq<char>>>,
    pub group_keys: Option<Seq<Seq<char>>>,
}

impl DeepView for SceneDescriptor {
    type V = SceneDescriptorS;

    open spec fn deep_view(&self) -> SceneDescriptorS {
        SceneDescriptorS {
            scene_id: self.scene_id@,
            device_keys: self.device_keys.deep_view(),
            group_keys: self.group_keys.deep_view(),
        }
    }
}

/// Request to run a custom integration action with a payload.
#[derive(Clone, Debug)]
pub struct CustomActionDescriptor {
    pub integration_id: String,
    pub payload: String,
}

pub ghost struct CustomActionDescriptorS {
    pub integration_id: Seq<char>,
    pub payload: Seq<char>,
}

impl DeepView for CustomActionDescriptor {
    type V = CustomActionDescriptorS;

    open spec fn deep_view(&self) -> CustomActionDescriptorS {
        CustomActionDescriptorS {
            integration_id: self.integration_id@,
            payload: self.payload@,
        }
    }
}

/// Request to forcibly trigger a routine, ignoring its rules.
#[derive(Clone, Debug)]
pub struct ForceTriggerRoutineDescriptor {
    pub routine_id: String,
}

pub ghost struct ForceTriggerRoutineDescriptorS {
    pub routine_id: Seq<char>,
}

impl DeepView for ForceTriggerRoutineDescriptor {
    type V = ForceTriggerRoutineDescriptorS;

    open spec fn deep_view(&self) -> ForceTriggerRoutineDescriptorS {
        ForceTriggerRoutineDescriptorS { routine_id: self.routine_id@ }
    }
}

/// One outbound domain action.
#[derive(Clone, Debug)]
pub enum Action {
    /// Request to activate the given scene.
    ActivateScene(SceneDescriptor),
    /// Runs a custom integration action.
    Custom(CustomActionDescriptor),
    /// Forcibly triggers a routine, ignoring any possible rules.
    ForceTriggerRoutine(ForceTriggerRoutineDescriptor),
    /// Writes a validated full state onto a device.
    SetDeviceState(Device),
}

pub ghost enum ActionS {
    ActivateScene(SceneDescriptorS),
    Custom(CustomActionDescriptorS),
    ForceTriggerRoutine(ForceTriggerRoutineDescriptorS),
    SetDeviceState(DeviceS),
}

impl DeepView for Action {
    type V = ActionS;

    open spec fn deep_view(&self) -> ActionS {
        match self {
            Action::ActivateScene(d) => ActionS::ActivateScene(d.deep_view()),
            Action::Custom(d) => ActionS::Custom(d.deep_view()),
            Action::ForceTriggerRoutine(d) => ActionS::ForceTriggerRoutine(d.deep_view()),
            Action::SetDeviceState(d) => ActionS::SetDeviceState(d.deep_view()),
        }
    }
}

/// The ordered actions of one evaluation.
pub type Actions = Vec<Action>;

} // verus!

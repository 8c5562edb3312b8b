//! The settings that a canvas app is built with before it starts.
use vstd::prelude::*;

verus! {

/// Phong shading, the one shading model the renderer has.
#[derive(Clone, Copy, Debug, PartialEq, Eq, Structural)]
pub struct Phong;

/// How often the scene is updated, whether input events are logged, and
/// whether the camera starts in free flight.
#[derive(Clone, Copy, Debug, PartialEq, Eq, Structural)]
pub struct CanvasSettings {
    pub update_frequency: u32,
    pub event_logging: bool,
    pub start_in_freeflight: bool,
}

impl CanvasSettings {
    /// Sixty scene updates a second, no logging, orbit camera.
    pub fn new() -> (r: Self)
        ensures
            r == (CanvasSettings {
                update_frequency: 60,
                event_logging: false,
                start_in_freeflight: false,
            }),
    {
        CanvasSettings { update_frequency: 60, event_logging: false, start_in_freeflight: false }
    }

    /// Selects the shading model; Phong is the only one, so nothing changes.
    pub fn shading(self, _shading: Phong) -> (r: Self)
        ensures
            r == self,
    {
        self
    }

    /// Selects the camera; there is one camera, so nothing changes.
    pub fn camera(self) -> (r: Self)
        ensures
            r == self,
    {
        self
    }

    /// Starts the camera in free flight.
    pub fn freeflight(self) -> (r: Self)
        ensures
            r == (CanvasSettings { start_in_freeflight: true, ..self }),
    {
        CanvasSettings { start_in_freeflight: true, ..self }
    }

    /// Logs every input event.
    pub fn enable_logging(self) -> (r: Self)
        ensures
            r == (CanvasSettings { event_logging: true, ..self }),
    {
        CanvasSettings { event_logging: true, ..self }
    }

    /// Updates the scene `update_frequency` times a second, and at least once.
    pub fn update_frequency(self, update_frequency: u32) -> (r: Self)
        ensures
            r == (CanvasSettings {
                update_frequency: if update_frequency == 0 {
                    1
                } else {
                    update_frequency
                },
                ..self
            }),
            r.update_frequency >= 1,
    {
        let update_frequency = if update_frequency == 0 {
            1
        } else {
            update_frequency
        };
        CanvasSettings { update_frequency, ..self }
    }
}

} // verus!

//! The event shape posted to downstream TethysDash subscribers.
//!
//! An event is composed at publish time from a position and the owning
//! platform's metadata, and is never persisted. The HTTP posting itself
//! happens outside the library; it is handed in as a capability (see the
//! publisher).

use vstd::prelude::*;

use crate::trackdb_client::{clone_opt_string, PlatformRes, Position};

verus! {

/// One position event for a platform, as delivered downstream.
pub struct XEvent {
    pub asset_id: String,
    pub asset_name: String,
    pub position: Position,
    pub platform_type: Option<String>,
    pub color: Option<String>,
    pub icon_url: Option<String>,
}

impl Clone for XEvent {
    fn clone(&self) -> (res: Self)
        ensures
            res == *self,
    {
        XEvent {
            asset_id: self.asset_id.clone(),
            asset_name: self.asset_name.clone(),
            position: self.position,
            platform_type: clone_opt_string(&self.platform_type),
            color: clone_opt_string(&self.color),
            icon_url: clone_opt_string(&self.icon_url),
        }
    }
}

impl XEvent {
    /// The event announcing one position of one platform: the position
    /// together with the platform's display metadata.
    pub fn compose(platform: &PlatformRes, position: &Position) -> (ev: XEvent)
        ensures
            ev.asset_id == platform._id,
            ev.asset_name == platform.name,
            ev.position == *position,
            ev.platform_type == platform.platform_type,
            ev.color == platform.color,
            ev.icon_url == platform.icon_url,
    {
        XEvent {
            asset_id: platform._id.clone(),
            asset_name: platform.name.clone(),
            position: *position,
            platform_type: clone_opt_string(&platform.platform_type),
            color: clone_opt_string(&platform.color),
            icon_url: clone_opt_string(&platform.icon_url),
        }
    }
}

} // verus!

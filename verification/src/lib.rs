//! Verified core of the GNOME monitor settings service: parsing of `ddcutil`
//! output, the table of safe VCP features, and the decisions the service takes
//! on monitor state.
use vstd::prelude::*;

pub mod backend;
pub mod laws;
pub mod manager;
pub mod model;
pub mod text;

verus! {

/// Application identifier of the GTK front end.
pub const APP_ID: &'static str = "io.github.avifenesh.GnomeMonitorSettings";

/// Well-known D-Bus name owned by the service.
pub const DBUS_NAME: &'static str = "io.github.avifenesh.GnomeMonitorSettings.Service";

/// Object path at which the service is exported.
pub const DBUS_PATH: &'static str = "/io/github/avifenesh/GnomeMonitorSettings";

/// D-Bus interface implemented by the service.
pub const DBUS_INTERFACE: &'static str = "io.github.avifenesh.GnomeMonitorSettings1";

} // verus!

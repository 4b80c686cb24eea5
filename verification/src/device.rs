//! Devices and the ways to reach them.
use crate::text::{lowered, lower_text, same_text};
use vstd::prelude::*;

verus! {

/// A way to reach a device.
#[derive(Debug, Clone, Copy, PartialEq, Eq, Structural)]
pub enum DeviceTransport {
    Usb,
    Wifi,
}

/// The ways that the user allows.
#[derive(Debug, Clone, Copy, PartialEq, Eq, Structural)]
pub enum ConnectionMode {
    Auto,
    Usb,
    Wifi,
}

impl DeviceTransport {
    /// The name of the transport.
    pub open spec fn name(self) -> Seq<char> {
        match self {
            DeviceTransport::Usb => "USB"@,
            DeviceTransport::Wifi => "WiFi"@,
        }
    }

    /// The name of the transport.
    pub fn label(self) -> (label: &'static str)
        ensures
            label@ == self.name(),
    {
        match self {
            DeviceTransport::Usb => "USB",
            DeviceTransport::Wifi => "WiFi",
        }
    }
}

impl ConnectionMode {
    /// The name of the mode.
    pub open spec fn name(self) -> Seq<char> {
        match self {
            ConnectionMode::Auto => "Auto (USB preferred)"@,
            ConnectionMode::Usb => "USB only"@,
            ConnectionMode::Wifi => "WiFi only"@,
        }
    }

    /// The mode allows the transport.
    pub open spec fn allows(self, transport: DeviceTransport) -> bool {
        match self {
            ConnectionMode::Auto => true,
            ConnectionMode::Usb => transport == DeviceTransport::Usb,
            ConnectionMode::Wifi => transport == DeviceTransport::Wifi,
        }
    }

    /// The name of the mode.
    pub fn label(self) -> (label: &'static str)
        ensures
            label@ == self.name(),
    {
        match self {
            ConnectionMode::Auto => "Auto (USB preferred)",
            ConnectionMode::Usb => "USB only",
            ConnectionMode::Wifi => "WiFi only",
        }
    }
}

/// A device that is in reach.
pub struct DeviceInfo {
    /// Its identifier.
    pub udid: String,
    /// The name that its user gave it.
    pub name: String,
    /// How it is shown in the log.
    pub label: String,
    /// The ways in which it is in reach, in words.
    pub summary: String,
    /// It is in reach by cable.
    pub usb: bool,
    /// It is in reach over the network.
    pub wifi: bool,
}

/// What is known of a device.
pub ghost struct DeviceView {
    pub udid: Seq<char>,
    pub name: Seq<char>,
    pub label: Seq<char>,
    pub summary: Seq<char>,
    pub usb: bool,
    pub wifi: bool,
}

impl View for DeviceInfo {
    type V = DeviceView;

    open spec fn view(&self) -> DeviceView {
        DeviceView {
            udid: self.udid@,
            name: self.name@,
            label: self.label@,
            summary: self.summary@,
            usb: self.usb,
            wifi: self.wifi,
        }
    }
}

impl DeviceView {
    /// The device is in reach by the transport.
    pub open spec fn reached_by(self, transport: DeviceTransport) -> bool {
        match transport {
            DeviceTransport::Usb => self.usb,
            DeviceTransport::Wifi => self.wifi,
        }
    }

    /// Some transport that the mode allows reaches the device.
    pub open spec fn reached_in(self, mode: ConnectionMode) -> bool {
        exists|t: DeviceTransport| #[trigger] mode.allows(t) && self.reached_by(t)
    }
}

impl DeviceInfo {
    /// Whether the device is in reach by the transport.
    pub fn has_transport(&self, transport: DeviceTransport) -> (has: bool)
        ensures
            has == self@.reached_by(transport),
    {
        match transport {
            DeviceTransport::Usb => self.usb,
            DeviceTransport::Wifi => self.wifi,
        }
    }

    /// Whether some transport that the mode allows reaches the device.
    pub fn supports(&self, mode: ConnectionMode) -> (has: bool)
        ensures
            has == self@.reached_in(mode),
    {
        proof {
            let usb = DeviceTransport::Usb;
            let wifi = DeviceTransport::Wifi;
            assert(mode.allows(usb) == (mode != ConnectionMode::Wifi));
            assert(mode.allows(wifi) == (mode != ConnectionMode::Usb));
        }
        match mode {
            ConnectionMode::Auto => self.usb || self.wifi,
            ConnectionMode::Usb => self.usb,
            ConnectionMode::Wifi => self.wifi,
        }
    }

    /// Whether the device has this identifier, in whatever case it is written.
    pub fn is_called(&self, udid: &str) -> (same: bool)
        ensures
            same == (lowered(self.udid@) == lowered(udid@)),
    {
        same_text(lower_text(self.udid.as_str()).as_str(), lower_text(udid).as_str())
    }
}

/// A device can be used by cable where it is in reach by cable, over the network where
/// it is in reach over the network, and in either way where both are allowed.
pub proof fn modes_name_their_transports(
    device: DeviceInfo,
    mode: ConnectionMode,
    transport: DeviceTransport,
    supported: bool,
    has: bool,
)
    requires
        call_ensures(DeviceInfo::supports, (&device, mode), supported),
        call_ensures(DeviceInfo::has_transport, (&device, transport), has),
    ensures
        mode == ConnectionMode::Usb ==> supported == device.usb,
        mode == ConnectionMode::Wifi ==> supported == device.wifi,
        mode == ConnectionMode::Auto ==> supported == (device.usb || device.wifi),
        transport == DeviceTransport::Usb ==> has == device.usb,
        transport == DeviceTransport::Wifi ==> has == device.wifi,
{
    assert(mode.allows(DeviceTransport::Usb) == (mode != ConnectionMode::Wifi));
    assert(mode.allows(DeviceTransport::Wifi) == (mode != ConnectionMode::Usb));
}

} // verus!

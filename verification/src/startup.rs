//! Decisions the kernel takes while it starts.
use vstd::prelude::*;

verus! {

/// PCI vendor id of Realtek.
pub const REALTEK_VENDOR_ID: u16 = 0x10ec;

/// PCI device id of the RTL8139 network controller.
pub const RTL8139_DEVICE_ID: u16 = 0x8139;

/// Whether a PCI device is a Realtek RTL8139 network controller.
pub fn is_rtl8139(vendor_id: u16, device_id: u16) -> (r: bool)
    ensures
        r == (vendor_id == REALTEK_VENDOR_ID && device_id == RTL8139_DEVICE_ID),
{
    vendor_id == REALTEK_VENDOR_ID && device_id == RTL8139_DEVICE_ID
}

/// How the registers of a device are reached, as its first base address
/// register says.
#[derive(Clone, Copy, Debug, PartialEq, Eq, Structural)]
pub enum BarAccess {
    /// Memory-mapped registers at this address.
    Mmio(u32),
    /// Registers in the I/O port space from this port on.
    Io(u16),
}

/// Decodes the first base address register: bit 0 clear means a memory
/// address (the low four bits masked off), set means an I/O port (the low two
/// bits masked off).
pub fn decode_bar0(bar0: u32) -> (r: BarAccess)
    ensures
        bar0 & 1 == 0 ==> r == BarAccess::Mmio(bar0 & 0xfffffff0),
        bar0 & 1 != 0 ==> r == BarAccess::Io((bar0 & 0xfffc) as u16),
{
    if bar0 & 0x1 == 0 {
        BarAccess::Mmio(bar0 & 0xfffffff0)
    } else {
        BarAccess::Io((bar0 & 0xfffc) as u16)
    }
}

/// The kind of framebuffer the boot loader set up.
#[derive(Clone, Copy, Debug, PartialEq, Eq, Structural)]
pub enum FramebufferType {
    /// Colors are indices into a palette.
    Indexed,
    /// Pixels hold red, green and blue values: a linear framebuffer.
    Rgb,
    /// The CGA text screen.
    Text,
}

/// What the kernel shows at start-up.
#[derive(Clone, Copy, Debug, PartialEq, Eq, Structural)]
pub enum StartupScreen {
    /// The graphics demo on the linear framebuffer.
    GraphicDemo,
    /// The demos on the CGA text screen.
    TextDemos,
}

/// What to show, given the framebuffer the boot loader reports (`None` when
/// it reports none, which means the CGA text mode). A palette framebuffer is
/// not supported.
pub fn startup_screen(framebuffer: Option<FramebufferType>) -> (r: StartupScreen)
    requires
        framebuffer != Some(FramebufferType::Indexed),
    ensures
        r == (if framebuffer == Some(FramebufferType::Rgb) {
            StartupScreen::GraphicDemo
        } else {
            StartupScreen::TextDemos
        }),
{
    match framebuffer {
        Some(FramebufferType::Rgb) => StartupScreen::GraphicDemo,
        _ => StartupScreen::TextDemos,
    }
}

} // verus!

use vstd::prelude::*;

verus! {

/// What a driver-binding query for one PCI function reports.
#[derive(Clone, Debug, PartialEq, Eq)]
pub enum DriverBinding {
    /// A driver is bound; the payload is the driver's name.
    Bound(String),
    /// No driver is bound: a binding lookup reports not-found.
    Unbound,
    /// The binding cannot be read at all (a failure other than not-found).
    Unreadable,
}

/// One PCI function as the kernel presents it. Identity (`addr`, `class`,
/// `vendor`) is fixed; `exists` and `driver` change as unbind, remove and
/// rescan writes are issued. The `*_ok` and `rebinds` fields describe how the
/// kernel answers mutation attempts on this function.
#[derive(Clone, Debug, PartialEq, Eq)]
pub struct PciFunction {
    /// Bus/slot/function address, e.g. `"0000:01:00.0"`.
    pub addr: String,
    /// 24-bit class code; the top byte is the base class (`0x03` = display).
    pub class: u32,
    /// 16-bit vendor id.
    pub vendor: u16,
    /// Whether class and vendor can be read; unreadable functions are
    /// skipped during discovery rather than reported.
    pub readable: bool,
    /// Whether the device node currently exists on the bus.
    pub exists: bool,
    /// The current driver binding.
    pub driver: DriverBinding,
    /// Whether the kernel accepts an unbind write for this function.
    pub unbind_ok: bool,
    /// Whether the driver stays bound even though an unbind write was
    /// accepted (the unbind did not complete, or something re-bound it).
    pub rebinds: bool,
    /// Whether the kernel accepts a remove write for this function.
    pub remove_ok: bool,
}

/// One interaction issued against the kernel or the system: a control write
/// or an external command. The log of these records what was attempted, in
/// order, whether or not the attempt succeeded.
#[derive(Clone, Debug, PartialEq, Eq)]
pub enum SysCommand {
    /// A driver-unbind write naming the function at `func`.
    Unbind { func: String },
    /// A device-remove write for the function at `func`.
    Remove { func: String },
    /// A bus-wide rescan trigger write.
    Rescan,
    /// Rewriting the modprobe configuration file.
    ModprobeWrite,
    /// Enabling or disabling the fallback service.
    Systemctl { enable: bool },
    /// Regenerating the boot initramfs.
    UpdateInitramfs,
}

/// The kernel-owned resources the library manages, held as plain data: the
/// PCI functions, the loaded kernel modules, the modprobe configuration
/// file, the exit statuses the two external commands would report, and the
/// log of every interaction issued so far. The caller that drives real
/// hardware reads this state from the live system and replays the log.
#[derive(Clone, Debug, PartialEq, Eq)]
pub struct KernelState {
    /// Every PCI function the bus knows of. Entries are never added or
    /// dropped by the operations here: removal only clears `exists`.
    pub pci: Vec<PciFunction>,
    /// Whether a bus rescan write is accepted.
    pub rescan_ok: bool,
    /// Names of the currently loaded kernel modules.
    pub modules: Vec<String>,
    /// Whether the module list can be read.
    pub modules_ok: bool,
    /// Current content of the modprobe configuration file.
    pub modprobe: String,
    /// Whether the modprobe file can be opened (with truncation).
    pub modprobe_open_ok: bool,
    /// Whether a write to the opened modprobe file succeeds.
    pub modprobe_write_ok: bool,
    /// Exit status of the service-control command; `None` if it cannot be
    /// spawned at all.
    pub systemctl_status: Option<i32>,
    /// Exit status of the initramfs-regeneration command; `None` if it
    /// cannot be spawned at all.
    pub initramfs_status: Option<i32>,
    /// Every interaction issued so far, oldest first.
    pub log: Vec<SysCommand>,
}

impl KernelState {
    /// Addresses identify functions uniquely.
    pub open spec fn wf(&self) -> bool {
        forall|i: int, j: int|
            0 <= i < j < self.pci@.len() ==> self.pci@[i].addr@ != self.pci@[j].addr@
    }
}

/// The parts of the state that no graphics operation changes: the fault
/// behaviour of the kernel and the system, and the module list.
pub open spec fn same_env(a: KernelState, b: KernelState) -> bool {
    &&& a.rescan_ok == b.rescan_ok
    &&& a.modules == b.modules
    &&& a.modules_ok == b.modules_ok
    &&& a.modprobe_open_ok == b.modprobe_open_ok
    &&& a.modprobe_write_ok == b.modprobe_write_ok
    &&& a.systemctl_status == b.systemctl_status
    &&& a.initramfs_status == b.initramfs_status
}

/// Identity, readability and fault behaviour of a function are untouched by
/// every operation here; only `exists` and `driver` move.
pub open spec fn same_identity(a: PciFunction, b: PciFunction) -> bool {
    &&& a.addr == b.addr
    &&& a.class == b.class
    &&& a.vendor == b.vendor
    &&& a.readable == b.readable
    &&& a.unbind_ok == b.unbind_ok
    &&& a.rebinds == b.rebinds
    &&& a.remove_ok == b.remove_ok
}

} // verus!

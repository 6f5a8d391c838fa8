use vstd::prelude::*;
use vstd::string::StrSliceExecFns;
use vstd::string::StringExecFns;

use crate::kernel::{DriverBinding, KernelState, PciFunction, SysCommand};
use crate::kernel::{same_env, same_identity};

verus! {

/// The external command that could not be run at all.
#[derive(Clone, Copy, Debug, PartialEq, Eq)]
pub enum CommandKind {
    /// The service-control command.
    Systemctl,
    /// The initramfs-regeneration command.
    UpdateInitramfs,
}

/// Everything that can go wrong while switching or powering graphics.
#[derive(Clone, Debug, PartialEq, Eq)]
pub enum GraphicsDeviceError {
    /// An external command could not be spawned.
    Command { cmd: CommandKind },
    /// A removal was attempted while `func` is still bound to `driver`.
    DeviceInUse { func: String, driver: String },
    /// The modprobe configuration file could not be opened.
    ModprobeFileOpen,
    /// The modprobe configuration file could not be written.
    ModprobeFileWrite,
    /// The list of active kernel modules could not be read.
    ModulesFetch,
    /// The machine does not have switchable graphics.
    NotSwitchable,
    /// A driver-binding query failed on the device with id `device`.
    PciDriver { device: String },
    /// A device-remove write was rejected on the device with id `device`.
    Remove { device: String },
    /// The bus rescan trigger was rejected.
    Rescan,
    /// A driver-unbind write for `func` was rejected by `driver`.
    Unbind { func: String, driver: String },
    /// The initramfs-regeneration command exited with this nonzero status.
    UpdateInitramfs(i32),
}

/// One physical GPU package: an identifying address plus the indices (into
/// `KernelState::pci`) of the PCI functions that share its slot.
#[derive(Clone, Debug)]
pub struct GraphicsDevice {
    pub id: String,
    pub functions: Vec<usize>,
}

impl GraphicsDevice {
    /// Every held index denotes a function of the given bus state.
    pub open spec fn wf(&self, pci: Seq<PciFunction>) -> bool {
        forall|k: int| 0 <= k < self.functions@.len() ==> (self.functions@[k] as int) < pci.len()
    }

    pub fn new(id: String, functions: Vec<usize>) -> (d: GraphicsDevice)
        ensures
            d.id == id,
            d.functions == functions,
    {
        GraphicsDevice { id, functions }
    }
}

/// True iff at least one of the functions currently has a live device node.
pub open spec fn spec_dev_exists(pci: Seq<PciFunction>, fns: Seq<usize>) -> bool {
    exists|k: int| 0 <= k < fns.len() && pci[fns[k] as int].exists
}

/// What unbinding a device's functions, in order, does to the bus and the
/// log, and what it returns. For each function that exists: a bound driver
/// gets an unbind write (fatal if rejected); an unbound function is left
/// alone; an unreadable binding is fatal. The first failure stops the pass.
pub open spec fn spec_unbind_dev(
    pci: Seq<PciFunction>,
    log: Seq<SysCommand>,
    fns: Seq<usize>,
    id: String,
) -> (Seq<PciFunction>, Seq<SysCommand>, Result<(), GraphicsDeviceError>)
    decreases fns.len(),
{
    if fns.len() == 0 {
        (pci, log, Ok(()))
    } else {
        let i = fns[0] as int;
        let f = pci[i];
        if f.exists {
            match f.driver {
                DriverBinding::Bound(d) => {
                    let log1 = log.push(SysCommand::Unbind { func: f.addr });
                    if f.unbind_ok {
                        let pci1 = if f.rebinds {
                            pci
                        } else {
                            pci.update(i, PciFunction { driver: DriverBinding::Unbound, ..f })
                        };
                        spec_unbind_dev(pci1, log1, fns.drop_first(), id)
                    } else {
                        (pci, log1, Err(GraphicsDeviceError::Unbind { func: f.addr, driver: d }))
                    }
                },
                DriverBinding::Unbound => spec_unbind_dev(pci, log, fns.drop_first(), id),
                DriverBinding::Unreadable => (
                    pci,
                    log,
                    Err(GraphicsDeviceError::PciDriver { device: id }),
                ),
            }
        } else {
            spec_unbind_dev(pci, log, fns.drop_first(), id)
        }
    }
}

/// What removing a device's functions, in order, does. For each function
/// that exists: a still-bound driver is a fatal device-in-use failure; an
/// unreadable binding is fatal; an unbound function gets a remove write
/// (fatal if rejected), which clears its node. An absent function is a
/// no-op. The first failure stops the pass.
pub open spec fn spec_remove_dev(
    pci: Seq<PciFunction>,
    log: Seq<SysCommand>,
    fns: Seq<usize>,
    id: String,
) -> (Seq<PciFunction>, Seq<SysCommand>, Result<(), GraphicsDeviceError>)
    decreases fns.len(),
{
    if fns.len() == 0 {
        (pci, log, Ok(()))
    } else {
        let i = fns[0] as int;
        let f = pci[i];
        if f.exists {
            match f.driver {
                DriverBinding::Bound(d) => (
                    pci,
                    log,
                    Err(GraphicsDeviceError::DeviceInUse { func: f.addr, driver: d }),
                ),
                DriverBinding::Unbound => {
                    let log1 = log.push(SysCommand::Remove { func: f.addr });
                    if f.remove_ok {
                        let pci1 = pci.update(i, PciFunction { exists: false, ..f });
                        spec_remove_dev(pci1, log1, fns.drop_first(), id)
                    } else {
                        (pci, log1, Err(GraphicsDeviceError::Remove { device: id }))
                    }
                },
                DriverBinding::Unreadable => (
                    pci,
                    log,
                    Err(GraphicsDeviceError::PciDriver { device: id }),
                ),
            }
        } else {
            spec_remove_dev(pci, log, fns.drop_first(), id)
        }
    }
}

pub const AMD_VENDOR_ID: u16 = 0x1002;
pub const INTEL_VENDOR_ID: u16 = 0x8086;
pub const NVIDIA_VENDOR_ID: u16 = 0x10DE;

/// The vendor classification a discovered graphics device is filed under.
#[derive(Clone, Copy, Debug, PartialEq, Eq, Structural)]
pub enum GpuVendor {
    Amd,
    Intel,
    Nvidia,
    Other,
}

/// A function with readable identity whose base class is display-controller.
pub open spec fn is_display(f: PciFunction) -> bool {
    f.readable && (f.class >> 16) & 0xFF == 3
}

pub open spec fn vendor_class(v: u16) -> GpuVendor {
    if v == AMD_VENDOR_ID {
        GpuVendor::Amd
    } else if v == NVIDIA_VENDOR_ID {
        GpuVendor::Nvidia
    } else if v == INTEL_VENDOR_ID {
        GpuVendor::Intel
    } else {
        GpuVendor::Other
    }
}

/// A display-class function filed under classification `c`.
pub open spec fn in_class(f: PciFunction, c: GpuVendor) -> bool {
    is_display(f) && vendor_class(f.vendor) == c
}

/// The addresses of the display-class functions of classification `c`, in
/// bus order.
pub open spec fn class_addrs(pci: Seq<PciFunction>, c: GpuVendor) -> Seq<String> {
    pci.filter(|f: PciFunction| in_class(f, c)).map_values(|f: PciFunction| f.addr)
}

/// The identifying addresses of a list of devices, in order.
pub open spec fn dev_ids(devs: Seq<GraphicsDevice>) -> Seq<String> {
    devs.map_values(|d: GraphicsDevice| d.id)
}

/// The slot prefix of an address: everything before the first `'.'`, or the
/// whole address when it has none.
pub open spec fn slot_of(s: Seq<char>) -> Seq<char> {
    s.take(crate::first_at(s, '.'))
}

/// Two addresses name functions of the same slot.
pub open spec fn same_slot(a: Seq<char>, b: Seq<char>) -> bool {
    slot_of(a) == slot_of(b)
}

/// Whether two addresses share a slot prefix.
fn same_slot_str(a: &str, b: &str) -> (r: bool)
    ensures
        r == same_slot(a@, b@),
{
    let da = crate::find_at(a, '.');
    let db = crate::find_at(b, '.');
    let sa = a.substring_char(0, da);
    let sb = b.substring_char(0, db);
    proof {
        assert(sa@ =~= slot_of(a@));
        assert(sb@ =~= slot_of(b@));
    }
    crate::str_eq(sa, sb)
}

impl GraphicsDevice {
    /// True iff at least one owned function currently has a device node.
    /// Pure query: reads the live state, mutates nothing.
    pub fn is_present(&self, st: &KernelState) -> (r: bool)
        requires
            self.wf(st.pci@),
        ensures
            r == spec_dev_exists(st.pci@, self.functions@),
    {
        let n = self.functions.len();
        let mut k: usize = 0;
        while k < n
            invariant
                n == self.functions@.len(),
                k <= n,
                self.wf(st.pci@),
                forall|t: int| 0 <= t < k ==> !st.pci@[self.functions@[t] as int].exists,
            decreases n - k,
        {
            if st.pci[self.functions[k]].exists {
                return true;
            }
            k += 1;
        }
        false
    }

    /// Unbind every owned function that is live and bound, in order,
    /// stopping at the first failure. Requires elevated trust on real
    /// hardware: it mutates live kernel driver state, and must only run
    /// when nothing else depends on the device.
    pub fn unbind(&self, st: &mut KernelState) -> (r: Result<(), GraphicsDeviceError>)
        requires
            self.wf(old(st).pci@),
        ensures
            ({
                let (pci1, log1, r1) = spec_unbind_dev(
                    old(st).pci@,
                    old(st).log@,
                    self.functions@,
                    self.id,
                );
                &&& final(st).pci@ == pci1
                &&& final(st).log@ == log1
                &&& r == r1
            }),
            same_env(*old(st), *final(st)),
            final(st).modprobe == old(st).modprobe,
    {
        proof {
            assert(self.functions@.skip(0) =~= self.functions@);
        }
        self.unbind_from(st, 0)
    }

    fn unbind_from(&self, st: &mut KernelState, k: usize) -> (r: Result<
        (),
        GraphicsDeviceError,
    >)
        requires
            self.wf(old(st).pci@),
            k <= self.functions@.len(),
        ensures
            ({
                let (pci1, log1, r1) = spec_unbind_dev(
                    old(st).pci@,
                    old(st).log@,
                    self.functions@.skip(k as int),
                    self.id,
                );
                &&& final(st).pci@ == pci1
                &&& final(st).log@ == log1
                &&& r == r1
            }),
            same_env(*old(st), *final(st)),
            final(st).modprobe == old(st).modprobe,
        decreases self.functions@.len() - k,
    {
        let ghost rest = self.functions@.skip(k as int);
        if k == self.functions.len() {
            assert(rest.len() == 0);
            return Ok(());
        }
        assert(rest[0] == self.functions@[k as int]);
        assert(rest.drop_first() =~= self.functions@.skip(k as int + 1));
        let i = self.functions[k];
        if st.pci[i].exists {
            let mut bound_name: Option<String> = None;
            let mut unreadable = false;
            match &st.pci[i].driver {
                DriverBinding::Bound(name) => {
                    bound_name = Some(name.clone());
                },
                DriverBinding::Unbound => {},
                DriverBinding::Unreadable => {
                    unreadable = true;
                },
            }
            if unreadable {
                return Err(GraphicsDeviceError::PciDriver { device: self.id.clone() });
            }
            if let Some(dname) = bound_name {
                let func_addr = st.pci[i].addr.clone();
                st.log.push(SysCommand::Unbind { func: func_addr.clone() });
                if !st.pci[i].unbind_ok {
                    return Err(GraphicsDeviceError::Unbind { func: func_addr, driver: dname });
                }
                if !st.pci[i].rebinds {
                    let ghost before = st.pci@;
                    st.pci[i].driver = DriverBinding::Unbound;
                    assert(st.pci@ =~= before.update(
                        i as int,
                        PciFunction { driver: DriverBinding::Unbound, ..before[i as int] },
                    ));
                }
            }
        }
        self.unbind_from(st, k + 1)
    }

    /// Remove every owned function that is live, in order, stopping at the
    /// first failure; a function still bound to a driver is a fatal
    /// device-in-use failure, never removed. Requires elevated trust on
    /// real hardware: callers must unbind the whole device group first.
    pub fn remove(&self, st: &mut KernelState) -> (r: Result<(), GraphicsDeviceError>)
        requires
            self.wf(old(st).pci@),
        ensures
            ({
                let (pci1, log1, r1) = spec_remove_dev(
                    old(st).pci@,
                    old(st).log@,
                    self.functions@,
                    self.id,
                );
                &&& final(st).pci@ == pci1
                &&& final(st).log@ == log1
                &&& r == r1
            }),
            same_env(*old(st), *final(st)),
            final(st).modprobe == old(st).modprobe,
    {
        proof {
            assert(self.functions@.skip(0) =~= self.functions@);
        }
        self.remove_from(st, 0)
    }

    fn remove_from(&self, st: &mut KernelState, k: usize) -> (r: Result<
        (),
        GraphicsDeviceError,
    >)
        requires
            self.wf(old(st).pci@),
            k <= self.functions@.len(),
        ensures
            ({
                let (pci1, log1, r1) = spec_remove_dev(
                    old(st).pci@,
                    old(st).log@,
                    self.functions@.skip(k as int),
                    self.id,
                );
                &&& final(st).pci@ == pci1
                &&& final(st).log@ == log1
                &&& r == r1
            }),
            same_env(*old(st), *final(st)),
            final(st).modprobe == old(st).modprobe,
        decreases self.functions@.len() - k,
    {
        let ghost rest = self.functions@.skip(k as int);
        if k == self.functions.len() {
            assert(rest.len() == 0);
            return Ok(());
        }
        assert(rest[0] == self.functions@[k as int]);
        assert(rest.drop_first() =~= self.functions@.skip(k as int + 1));
        let i = self.functions[k];
        if st.pci[i].exists {
            let mut bound_name: Option<String> = None;
            let mut unreadable = false;
            match &st.pci[i].driver {
                DriverBinding::Bound(name) => {
                    bound_name = Some(name.clone());
                },
                DriverBinding::Unbound => {},
                DriverBinding::Unreadable => {
                    unreadable = true;
                },
            }
            if unreadable {
                return Err(GraphicsDeviceError::PciDriver { device: self.id.clone() });
            }
            if let Some(dname) = bound_name {
                let func_addr = st.pci[i].addr.clone();
                return Err(GraphicsDeviceError::DeviceInUse { func: func_addr, driver: dname });
            }
            let func_addr = st.pci[i].addr.clone();
            st.log.push(SysCommand::Remove { func: func_addr });
            if !st.pci[i].remove_ok {
                return Err(GraphicsDeviceError::Remove { device: self.id.clone() });
            }
            let ghost before = st.pci@;
            st.pci[i].exists = false;
            assert(st.pci@ =~= before.update(
                i as int,
                PciFunction { exists: false, ..before[i as int] },
            ));
        }
        self.remove_from(st, k + 1)
    }
}

/// `fns` lists exactly the indices of the functions that share the slot
/// prefix `a`, in bus order.
pub open spec fn functions_of_spec(fns: Seq<usize>, pci: Seq<PciFunction>, a: Seq<char>) -> bool {
    &&& forall|k: int|
        0 <= k < fns.len() ==> (fns[k] as int) < pci.len() && same_slot(
            pci[fns[k] as int].addr@,
            a,
        )
    &&& forall|k1: int, k2: int| 0 <= k1 < k2 < fns.len() ==> fns[k1] < fns[k2]
    &&& forall|i: int| 0 <= i < pci.len() && same_slot(pci[i].addr@, a) ==> fns.contains(i as usize)
}

/// The device groups exactly the functions sharing its slot prefix.
pub open spec fn device_of(d: GraphicsDevice, pci: Seq<PciFunction>) -> bool {
    functions_of_spec(d.functions@, pci, d.id@)
}

/// The list holds one device per display-class function of classification
/// `c`, in bus order, each grouping its slot's functions.
pub open spec fn bucket_of(devs: Seq<GraphicsDevice>, pci: Seq<PciFunction>, c: GpuVendor) -> bool {
    &&& dev_ids(devs) == class_addrs(pci, c)
    &&& forall|k: int| 0 <= k < devs.len() ==> device_of(#[trigger] devs[k], pci)
}

/// All the indices of functions sharing the slot prefix of `parent`.
fn functions_of(st: &KernelState, parent: &str) -> (fns: Vec<usize>)
    ensures
        functions_of_spec(fns@, st.pci@, parent@),
{
    let mut fns: Vec<usize> = Vec::new();
    let n = st.pci.len();
    let mut j: usize = 0;
    while j < n
        invariant
            n == st.pci@.len(),
            j <= n,
            forall|k: int|
                0 <= k < fns@.len() ==> (fns@[k] as int) < j && same_slot(
                    st.pci@[fns@[k] as int].addr@,
                    parent@,
                ),
            forall|k1: int, k2: int| 0 <= k1 < k2 < fns@.len() ==> fns@[k1] < fns@[k2],
            forall|i: int|
                0 <= i < j && same_slot(st.pci@[i].addr@, parent@) ==> fns@.contains(i as usize),
        decreases n - j,
    {
        if same_slot_str(st.pci[j].addr.as_str(), parent) {
            let ghost before = fns@;
            fns.push(j);
            proof {
                assert(fns@[fns@.len() - 1] == j);
                assert forall|i: int|
                    0 <= i < j + 1 && same_slot(st.pci@[i].addr@, parent@) implies fns@.contains(
                    i as usize,
                ) by {
                    if i < j {
                        let w = choose|w: int| 0 <= w < before.len() && before[w] == i as usize;
                        assert(fns@[w] == i as usize);
                    } else {
                        assert(fns@[fns@.len() - 1] == i as usize);
                    }
                }
            }
        }
        j += 1;
    }
    fns
}

/// Every node of a present function reappears after a successful rescan.
pub open spec fn all_rescanned(pci: Seq<PciFunction>) -> Seq<PciFunction> {
    pci.map_values(|f: PciFunction| PciFunction { exists: true, ..f })
}

/// Issue the bus-wide rescan trigger; on success every device node exists
/// again.
fn rescan_bus(st: &mut KernelState) -> (ok: bool)
    ensures
        final(st).log@ == old(st).log@.push(SysCommand::Rescan),
        same_env(*old(st), *final(st)),
        final(st).modprobe == old(st).modprobe,
        ok == old(st).rescan_ok,
        ok ==> final(st).pci@ == all_rescanned(old(st).pci@),
        !ok ==> final(st).pci@ == old(st).pci@,
{
    st.log.push(SysCommand::Rescan);
    if !st.rescan_ok {
        return false;
    }
    let ghost orig = st.pci@;
    let n = st.pci.len();
    let mut j: usize = 0;
    while j < n
        invariant
            n == st.pci@.len(),
            orig.len() == n,
            j <= n,
            st.log@ == old(st).log@.push(SysCommand::Rescan),
            same_env(*old(st), *st),
            st.modprobe == old(st).modprobe,
            forall|t: int| 0 <= t < j ==> st.pci@[t] == all_rescanned(orig)[t],
            forall|t: int| j <= t < n ==> st.pci@[t] == orig[t],
        decreases n - j,
    {
        st.pci[j].exists = true;
        j += 1;
    }
    proof {
        assert(st.pci@ =~= all_rescanned(orig));
    }
    true
}

/// The vendor-classified snapshot of the machine's graphics devices: four
/// disjoint lists keyed by silicon vendor, built once at construction.
pub struct Graphics {
    pub amd: Vec<GraphicsDevice>,
    pub intel: Vec<GraphicsDevice>,
    pub nvidia: Vec<GraphicsDevice>,
    pub other: Vec<GraphicsDevice>,
}

/// `g` is exactly the classification of the bus state `pci`.
pub open spec fn classified_from(g: Graphics, pci: Seq<PciFunction>) -> bool {
    &&& bucket_of(g.amd@, pci, GpuVendor::Amd)
    &&& bucket_of(g.intel@, pci, GpuVendor::Intel)
    &&& bucket_of(g.nvidia@, pci, GpuVendor::Nvidia)
    &&& bucket_of(g.other@, pci, GpuVendor::Other)
}

proof fn lemma_class_addrs_push(prefix: Seq<PciFunction>, f: PciFunction, c: GpuVendor)
    ensures
        in_class(f, c) ==> class_addrs(prefix.push(f), c) == class_addrs(prefix, c).push(f.addr),
        !in_class(f, c) ==> class_addrs(prefix.push(f), c) == class_addrs(prefix, c),
{
    prefix.lemma_filter_push(f, |f: PciFunction| in_class(f, c));
    if in_class(f, c) {
        prefix.filter(|f: PciFunction| in_class(f, c)).lemma_push_map_commute(
            |f: PciFunction| f.addr,
            f,
        );
    }
}

proof fn lemma_dev_ids_push(devs: Seq<GraphicsDevice>, d: GraphicsDevice)
    ensures
        dev_ids(devs.push(d)) == dev_ids(devs).push(d.id),
{
    devs.lemma_push_map_commute(|d: GraphicsDevice| d.id, d);
}

impl Graphics {
    /// Every device of every list points into the given bus state.
    pub open spec fn wf(&self, pci: Seq<PciFunction>) -> bool {
        &&& forall|k: int| 0 <= k < self.amd@.len() ==> (#[trigger] self.amd@[k]).wf(pci)
        &&& forall|k: int| 0 <= k < self.intel@.len() ==> (#[trigger] self.intel@[k]).wf(pci)
        &&& forall|k: int| 0 <= k < self.nvidia@.len() ==> (#[trigger] self.nvidia@[k]).wf(pci)
        &&& forall|k: int| 0 <= k < self.other@.len() ==> (#[trigger] self.other@[k]).wf(pci)
    }

    /// Rescan the bus so the device list reflects reality, then classify
    /// every display-class function by vendor, grouping each with its
    /// slot's sibling functions. A rejected rescan is fatal.
    pub fn new(st: &mut KernelState) -> (r: Result<Graphics, GraphicsDeviceError>)
        ensures
            final(st).log@ == old(st).log@.push(SysCommand::Rescan),
            same_env(*old(st), *final(st)),
            final(st).modprobe == old(st).modprobe,
            !old(st).rescan_ok ==> r == Err::<Graphics, GraphicsDeviceError>(
                GraphicsDeviceError::Rescan,
            ) && final(st).pci@ == old(st).pci@,
            old(st).rescan_ok ==> final(st).pci@ == all_rescanned(old(st).pci@) && (r matches Ok(g)
                && classified_from(g, final(st).pci@) && g.wf(final(st).pci@)),
    {
        if !rescan_bus(st) {
            return Err(GraphicsDeviceError::Rescan);
        }
        let mut amd: Vec<GraphicsDevice> = Vec::new();
        let mut intel: Vec<GraphicsDevice> = Vec::new();
        let mut nvidia: Vec<GraphicsDevice> = Vec::new();
        let mut other: Vec<GraphicsDevice> = Vec::new();
        let n = st.pci.len();
        let mut i: usize = 0;
        while i < n
            invariant
                n == st.pci@.len(),
                i <= n,
                dev_ids(amd@) == class_addrs(st.pci@.take(i as int), GpuVendor::Amd),
                dev_ids(intel@) == class_addrs(st.pci@.take(i as int), GpuVendor::Intel),
                dev_ids(nvidia@) == class_addrs(st.pci@.take(i as int), GpuVendor::Nvidia),
                dev_ids(other@) == class_addrs(st.pci@.take(i as int), GpuVendor::Other),
                forall|k: int| 0 <= k < amd@.len() ==> device_of(#[trigger] amd@[k], st.pci@),
                forall|k: int| 0 <= k < intel@.len() ==> device_of(#[trigger] intel@[k], st.pci@),
                forall|k: int| 0 <= k < nvidia@.len() ==> device_of(#[trigger] nvidia@[k], st.pci@),
                forall|k: int| 0 <= k < other@.len() ==> device_of(#[trigger] other@[k], st.pci@),
            decreases n - i,
        {
            let ghost f = st.pci@[i as int];
            let ghost take_i = st.pci@.take(i as int);
            proof {
                st.pci@.lemma_take_succ_push(i as int);
                lemma_class_addrs_push(take_i, f, GpuVendor::Amd);
                lemma_class_addrs_push(take_i, f, GpuVendor::Intel);
                lemma_class_addrs_push(take_i, f, GpuVendor::Nvidia);
                lemma_class_addrs_push(take_i, f, GpuVendor::Other);
            }
            let display = st.pci[i].readable && (st.pci[i].class >> 16) & 0xFF == 0x03;
            if display {
                let fns = functions_of(st, st.pci[i].addr.as_str());
                let dev = GraphicsDevice::new(st.pci[i].addr.clone(), fns);
                assert(device_of(dev, st.pci@));
                let ghost dv = dev;
                let ghost amd0 = amd@;
                let ghost intel0 = intel@;
                let ghost nvidia0 = nvidia@;
                let ghost other0 = other@;
                match st.pci[i].vendor {
                    AMD_VENDOR_ID => amd.push(dev),
                    NVIDIA_VENDOR_ID => nvidia.push(dev),
                    INTEL_VENDOR_ID => intel.push(dev),
                    _ => other.push(dev),
                }
                proof {
                    if vendor_class(f.vendor) == GpuVendor::Amd {
                        lemma_dev_ids_push(amd0, dv);
                    } else if vendor_class(f.vendor) == GpuVendor::Nvidia {
                        lemma_dev_ids_push(nvidia0, dv);
                    } else if vendor_class(f.vendor) == GpuVendor::Intel {
                        lemma_dev_ids_push(intel0, dv);
                    } else {
                        lemma_dev_ids_push(other0, dv);
                    }
                }
            }
            i += 1;
        }
        proof {
            st.pci@.lemma_take_len();
        }
        Ok(Graphics { amd, intel, nvidia, other })
    }
}

/// Switching is possible iff both an Intel and an NVIDIA controller exist.
pub open spec fn can_switch_spec(g: Graphics) -> bool {
    g.intel@.len() > 0 && g.nvidia@.len() > 0
}

/// A module whose presence means the discrete driver is currently active.
pub open spec fn nvidia_driver_loaded(mods: Seq<String>) -> bool {
    exists|i: int| 0 <= i < mods.len() && (mods[i]@ == "nvidia"@ || mods[i]@ == "nouveau"@)
}

/// Modprobe file content that leaves the NVIDIA module family enabled.
pub open spec fn modprobe_nvidia_spec() -> Seq<char> {
    "# Maintained by system76-power; do not edit\n"@
}

/// Modprobe file content that blacklists the whole NVIDIA/Nouveau module
/// family so the integrated GPU becomes the default.
pub open spec fn modprobe_intel_spec() -> Seq<char> {
    "# Maintained by system76-power; do not edit\nblacklist i2c_nvidia_gpu\nblacklist nouveau\nblacklist nvidia\nblacklist nvidia-drm\nblacklist nvidia-modeset\nalias i2c_nvidia_gpu off\nalias nouveau off\nalias nvidia off\nalias nvidia-drm off\nalias nvidia-modeset off\n"@
}

/// The NVIDIA-selecting modprobe template.
pub fn modprobe_nvidia() -> (r: &'static str)
    ensures
        r@ == modprobe_nvidia_spec(),
{
    "# Maintained by system76-power; do not edit\n"
}

/// The Intel-selecting modprobe template.
pub fn modprobe_intel() -> (r: &'static str)
    ensures
        r@ == modprobe_intel_spec(),
{
    "# Maintained by system76-power; do not edit\nblacklist i2c_nvidia_gpu\nblacklist nouveau\nblacklist nvidia\nblacklist nvidia-drm\nblacklist nvidia-modeset\nalias i2c_nvidia_gpu off\nalias nouveau off\nalias nvidia off\nalias nvidia-drm off\nalias nvidia-modeset off\n"
}

/// What persisting a driver preference does: rewrite the modprobe file,
/// best-effort toggle the fallback service (a status is never fatal, only a
/// spawn failure is), then mandatorily regenerate the initramfs, in that
/// order. The PCI bus is never touched.
pub open spec fn set_vendor_post(
    g: Graphics,
    pre: KernelState,
    post: KernelState,
    nvidia: bool,
    r: Result<(), GraphicsDeviceError>,
) -> bool {
    if !can_switch_spec(g) {
        post == pre && r == Err::<(), GraphicsDeviceError>(GraphicsDeviceError::NotSwitchable)
    } else {
        &&& post.pci == pre.pci
        &&& same_env(pre, post)
        &&& {
            let l1 = pre.log@.push(SysCommand::ModprobeWrite);
            if !pre.modprobe_open_ok {
                &&& post.log@ == l1
                &&& post.modprobe == pre.modprobe
                &&& r == Err::<(), GraphicsDeviceError>(GraphicsDeviceError::ModprobeFileOpen)
            } else if !pre.modprobe_write_ok {
                &&& post.log@ == l1
                &&& post.modprobe@ == Seq::<char>::empty()
                &&& r == Err::<(), GraphicsDeviceError>(GraphicsDeviceError::ModprobeFileWrite)
            } else {
                &&& post.modprobe@ == if nvidia {
                    modprobe_nvidia_spec()
                } else {
                    modprobe_intel_spec()
                }
                &&& {
                    let l2 = l1.push(SysCommand::Systemctl { enable: nvidia });
                    match pre.systemctl_status {
                        Option::None => post.log@ == l2 && r == Err::<(), GraphicsDeviceError>(
                            GraphicsDeviceError::Command { cmd: CommandKind::Systemctl },
                        ),
                        Option::Some(_) => {
                            let l3 = l2.push(SysCommand::UpdateInitramfs);
                            &&& post.log@ == l3
                            &&& match pre.initramfs_status {
                                Option::None => r == Err::<(), GraphicsDeviceError>(
                                    GraphicsDeviceError::Command {
                                        cmd: CommandKind::UpdateInitramfs,
                                    },
                                ),
                                Option::Some(s) => if s == 0 {
                                    r == Ok::<(), GraphicsDeviceError>(())
                                } else {
                                    r == Err::<(), GraphicsDeviceError>(
                                        GraphicsDeviceError::UpdateInitramfs(s),
                                    )
                                },
                            }
                        },
                    }
                }
            }
        }
    }
}

/// Unbind device after device, in list order, stopping at the first failure.
pub open spec fn spec_unbind_list(
    pci: Seq<PciFunction>,
    log: Seq<SysCommand>,
    devs: Seq<GraphicsDevice>,
) -> (Seq<PciFunction>, Seq<SysCommand>, Result<(), GraphicsDeviceError>)
    decreases devs.len(),
{
    if devs.len() == 0 {
        (pci, log, Ok(()))
    } else {
        let (p1, l1, r1) = spec_unbind_dev(pci, log, devs[0].functions@, devs[0].id);
        if r1 is Err {
            (p1, l1, r1)
        } else {
            spec_unbind_list(p1, l1, devs.drop_first())
        }
    }
}

/// Remove device after device, in list order, stopping at the first failure.
pub open spec fn spec_remove_list(
    pci: Seq<PciFunction>,
    log: Seq<SysCommand>,
    devs: Seq<GraphicsDevice>,
) -> (Seq<PciFunction>, Seq<SysCommand>, Result<(), GraphicsDeviceError>)
    decreases devs.len(),
{
    if devs.len() == 0 {
        (pci, log, Ok(()))
    } else {
        let (p1, l1, r1) = spec_remove_dev(pci, log, devs[0].functions@, devs[0].id);
        if r1 is Err {
            (p1, l1, r1)
        } else {
            spec_remove_list(p1, l1, devs.drop_first())
        }
    }
}

/// Powering off: unbind the whole list first; only when every unbind
/// succeeded do any removes run. Partial completion is not rolled back.
pub open spec fn spec_power_off(
    pci: Seq<PciFunction>,
    log: Seq<SysCommand>,
    devs: Seq<GraphicsDevice>,
) -> (Seq<PciFunction>, Seq<SysCommand>, Result<(), GraphicsDeviceError>) {
    let (p1, l1, r1) = spec_unbind_list(pci, log, devs);
    if r1 is Err {
        (p1, l1, r1)
    } else {
        spec_remove_list(p1, l1, devs)
    }
}

/// Unbinding never adds or drops bus entries, and never changes a
/// function's identity or fault behaviour: only `driver` moves.
pub proof fn lemma_unbind_dev_frame(
    pci: Seq<PciFunction>,
    log: Seq<SysCommand>,
    fns: Seq<usize>,
    id: String,
)
    requires
        forall|k: int| 0 <= k < fns.len() ==> (fns[k] as int) < pci.len(),
    ensures
        ({
            let (p1, l1, r1) = spec_unbind_dev(pci, log, fns, id);
            &&& p1.len() == pci.len()
            &&& forall|t: int|
                0 <= t < pci.len() ==> same_identity(#[trigger] p1[t], pci[t]) && p1[t].exists
                    == pci[t].exists
        }),
    decreases fns.len(),
{
    if fns.len() > 0 {
        let i = fns[0] as int;
        let f = pci[i];
        assert forall|k: int| 0 <= k < fns.drop_first().len() implies (fns.drop_first()[k]
            as int) < pci.len() by {
            assert(fns.drop_first()[k] == fns[k + 1]);
        }
        if f.exists {
            match f.driver {
                DriverBinding::Bound(d) => {
                    if f.unbind_ok {
                        let log1 = log.push(SysCommand::Unbind { func: f.addr });
                        if f.rebinds {
                            lemma_unbind_dev_frame(pci, log1, fns.drop_first(), id);
                        } else {
                            let pci1 = pci.update(
                                i,
                                PciFunction { driver: DriverBinding::Unbound, ..f },
                            );
                            lemma_unbind_dev_frame(pci1, log1, fns.drop_first(), id);
                        }
                    }
                },
                DriverBinding::Unbound => {
                    lemma_unbind_dev_frame(pci, log, fns.drop_first(), id);
                },
                DriverBinding::Unreadable => {},
            }
        } else {
            lemma_unbind_dev_frame(pci, log, fns.drop_first(), id);
        }
    }
}

/// Removal never adds or drops bus entries, and never changes a function's
/// identity, fault behaviour or binding: only `exists` can fall to false.
pub proof fn lemma_remove_dev_frame(
    pci: Seq<PciFunction>,
    log: Seq<SysCommand>,
    fns: Seq<usize>,
    id: String,
)
    requires
        forall|k: int| 0 <= k < fns.len() ==> (fns[k] as int) < pci.len(),
    ensures
        ({
            let (p1, l1, r1) = spec_remove_dev(pci, log, fns, id);
            &&& p1.len() == pci.len()
            &&& forall|t: int|
                0 <= t < pci.len() ==> same_identity(#[trigger] p1[t], pci[t]) && p1[t].driver
                    == pci[t].driver && (p1[t].exists ==> pci[t].exists)
        }),
    decreases fns.len(),
{
    if fns.len() > 0 {
        let i = fns[0] as int;
        let f = pci[i];
        assert forall|k: int| 0 <= k < fns.drop_first().len() implies (fns.drop_first()[k]
            as int) < pci.len() by {
            assert(fns.drop_first()[k] == fns[k + 1]);
        }
        if f.exists {
            match f.driver {
                DriverBinding::Unbound => {
                    if f.remove_ok {
                        let log1 = log.push(SysCommand::Remove { func: f.addr });
                        let pci1 = pci.update(i, PciFunction { exists: false, ..f });
                        lemma_remove_dev_frame(pci1, log1, fns.drop_first(), id);
                    }
                },
                DriverBinding::Bound(_) => {},
                DriverBinding::Unreadable => {},
            }
        } else {
            lemma_remove_dev_frame(pci, log, fns.drop_first(), id);
        }
    }
}

/// True iff any NVIDIA device currently has a live node.
pub open spec fn spec_graphics_power(pci: Seq<PciFunction>, devs: Seq<GraphicsDevice>) -> bool {
    exists|k: int| 0 <= k < devs.len() && spec_dev_exists(pci, devs[k].functions@)
}

/// What a rescan-only power-on does.
pub open spec fn rescan_post(
    pre: KernelState,
    post: KernelState,
    r: Result<(), GraphicsDeviceError>,
) -> bool {
    &&& post.log@ == pre.log@.push(SysCommand::Rescan)
    &&& same_env(pre, post)
    &&& post.modprobe == pre.modprobe
    &&& if pre.rescan_ok {
        post.pci@ == all_rescanned(pre.pci@) && r == Ok::<(), GraphicsDeviceError>(())
    } else {
        post.pci@ == pre.pci@ && r == Err::<(), GraphicsDeviceError>(GraphicsDeviceError::Rescan)
    }
}

/// What `set_power` does: nothing but the not-switchable error without both
/// controllers; a rescan for power-on; the two-phase unbind-then-remove
/// batch over the NVIDIA list for power-off.
pub open spec fn set_power_post(
    g: Graphics,
    pre: KernelState,
    post: KernelState,
    power: bool,
    r: Result<(), GraphicsDeviceError>,
) -> bool {
    if !can_switch_spec(g) {
        post == pre && r == Err::<(), GraphicsDeviceError>(GraphicsDeviceError::NotSwitchable)
    } else if power {
        rescan_post(pre, post, r)
    } else {
        let (p1, l1, r1) = spec_power_off(pre.pci@, pre.log@, g.nvidia@);
        &&& post.pci@ == p1
        &&& post.log@ == l1
        &&& r == r1
        &&& same_env(pre, post)
        &&& post.modprobe == pre.modprobe
    }
}

impl Graphics {
    fn unbind_all_from(&self, st: &mut KernelState, k: usize) -> (r: Result<
        (),
        GraphicsDeviceError,
    >)
        requires
            self.wf(old(st).pci@),
            k <= self.nvidia@.len(),
        ensures
            ({
                let (p1, l1, r1) = spec_unbind_list(
                    old(st).pci@,
                    old(st).log@,
                    self.nvidia@.skip(k as int),
                );
                &&& final(st).pci@ == p1
                &&& final(st).log@ == l1
                &&& r == r1
            }),
            same_env(*old(st), *final(st)),
            final(st).modprobe == old(st).modprobe,
            final(st).pci@.len() == old(st).pci@.len(),
        decreases self.nvidia@.len() - k,
    {
        let ghost rest = self.nvidia@.skip(k as int);
        if k == self.nvidia.len() {
            assert(rest.len() == 0);
            return Ok(());
        }
        assert(rest[0] == self.nvidia@[k as int]);
        assert(rest.drop_first() =~= self.nvidia@.skip(k as int + 1));
        let dev = &self.nvidia[k];
        proof {
            lemma_unbind_dev_frame(st.pci@, st.log@, dev.functions@, dev.id);
        }
        let r1 = dev.unbind(st);
        if let Err(e) = r1 {
            return Err(e);
        }
        self.unbind_all_from(st, k + 1)
    }

    fn remove_all_from(&self, st: &mut KernelState, k: usize) -> (r: Result<
        (),
        GraphicsDeviceError,
    >)
        requires
            self.wf(old(st).pci@),
            k <= self.nvidia@.len(),
        ensures
            ({
                let (p1, l1, r1) = spec_remove_list(
                    old(st).pci@,
                    old(st).log@,
                    self.nvidia@.skip(k as int),
                );
                &&& final(st).pci@ == p1
                &&& final(st).log@ == l1
                &&& r == r1
            }),
            same_env(*old(st), *final(st)),
            final(st).modprobe == old(st).modprobe,
            final(st).pci@.len() == old(st).pci@.len(),
        decreases self.nvidia@.len() - k,
    {
        let ghost rest = self.nvidia@.skip(k as int);
        if k == self.nvidia.len() {
            assert(rest.len() == 0);
            return Ok(());
        }
        assert(rest[0] == self.nvidia@[k as int]);
        assert(rest.drop_first() =~= self.nvidia@.skip(k as int + 1));
        let dev = &self.nvidia[k];
        proof {
            lemma_remove_dev_frame(st.pci@, st.log@, dev.functions@, dev.id);
        }
        let r1 = dev.remove(st);
        if let Err(e) = r1 {
            return Err(e);
        }
        self.remove_all_from(st, k + 1)
    }

    /// True iff both the Intel and the NVIDIA list are non-empty: the
    /// precondition gating every vendor or power mutation.
    pub fn can_switch(&self) -> (r: bool)
        ensures
            r == can_switch_spec(*self),
    {
        !self.intel.is_empty() && !self.nvidia.is_empty()
    }

    fn switchable_or_fail(&self) -> (r: Result<(), GraphicsDeviceError>)
        ensures
            r == if can_switch_spec(*self) {
                Ok::<(), GraphicsDeviceError>(())
            } else {
                Err::<(), GraphicsDeviceError>(GraphicsDeviceError::NotSwitchable)
            },
    {
        if self.can_switch() {
            Ok(())
        } else {
            Err(GraphicsDeviceError::NotSwitchable)
        }
    }

    /// The currently active driver, from the loaded-module list: "nvidia"
    /// iff a module named `nvidia` or `nouveau` is loaded, else "intel".
    /// This reflects the live driver, not the boot preference.
    pub fn get_vendor(&self, st: &KernelState) -> (r: Result<String, GraphicsDeviceError>)
        ensures
            !st.modules_ok ==> r == Err::<String, GraphicsDeviceError>(
                GraphicsDeviceError::ModulesFetch,
            ),
            st.modules_ok ==> (r matches Ok(v) && v@ == if nvidia_driver_loaded(st.modules@) {
                "nvidia"@
            } else {
                "intel"@
            }),
    {
        if !st.modules_ok {
            return Err(GraphicsDeviceError::ModulesFetch);
        }
        let n = st.modules.len();
        let mut i: usize = 0;
        let mut found = false;
        while i < n
            invariant
                n == st.modules@.len(),
                i <= n,
                found == exists|t: int|
                    0 <= t < i && (st.modules@[t]@ == "nvidia"@ || st.modules@[t]@ == "nouveau"@),
            decreases n - i,
        {
            if crate::str_eq(st.modules[i].as_str(), "nvidia") || crate::str_eq(
                st.modules[i].as_str(),
                "nouveau",
            ) {
                found = true;
            }
            i += 1;
        }
        if found {
            Ok("nvidia".to_owned())
        } else {
            Ok("intel".to_owned())
        }
    }

    /// Persist the boot-time driver preference: rewrite the modprobe file
    /// with the vendor's template, toggle the fallback service (best
    /// effort), and regenerate the initramfs (fatal on failure). Fails with
    /// the not-switchable error, touching nothing, when switching is not
    /// possible.
    pub fn set_vendor(&self, vendor: &str, st: &mut KernelState) -> (r: Result<
        (),
        GraphicsDeviceError,
    >)
        ensures
            set_vendor_post(*self, *old(st), *final(st), vendor@ == "nvidia"@, r),
    {
        if let Err(e) = self.switchable_or_fail() {
            return Err(e);
        }
        let nvidia = crate::str_eq(vendor, "nvidia");
        st.log.push(SysCommand::ModprobeWrite);
        if !st.modprobe_open_ok {
            return Err(GraphicsDeviceError::ModprobeFileOpen);
        }
        if !st.modprobe_write_ok {
            st.modprobe = String::new();
            return Err(GraphicsDeviceError::ModprobeFileWrite);
        }
        st.modprobe = if nvidia {
            String::from_str(modprobe_nvidia())
        } else {
            String::from_str(modprobe_intel())
        };
        st.log.push(SysCommand::Systemctl { enable: nvidia });
        if st.systemctl_status.is_none() {
            return Err(GraphicsDeviceError::Command { cmd: CommandKind::Systemctl });
        }
        st.log.push(SysCommand::UpdateInitramfs);
        match st.initramfs_status {
            Option::None => Err(GraphicsDeviceError::Command {
                cmd: CommandKind::UpdateInitramfs,
            }),
            Option::Some(s) => {
                if s == 0 {
                    Ok(())
                } else {
                    Err(GraphicsDeviceError::UpdateInitramfs(s))
                }
            },
        }
    }

    /// True iff any NVIDIA device currently has a live node. Fails with the
    /// not-switchable error when switching is not possible.
    pub fn get_power(&self, st: &KernelState) -> (r: Result<bool, GraphicsDeviceError>)
        requires
            self.wf(st.pci@),
        ensures
            r == if can_switch_spec(*self) {
                Ok::<bool, GraphicsDeviceError>(spec_graphics_power(st.pci@, self.nvidia@))
            } else {
                Err::<bool, GraphicsDeviceError>(GraphicsDeviceError::NotSwitchable)
            },
    {
        if let Err(e) = self.switchable_or_fail() {
            return Err(e);
        }
        let n = self.nvidia.len();
        let mut k: usize = 0;
        while k < n
            invariant
                n == self.nvidia@.len(),
                k <= n,
                self.wf(st.pci@),
                can_switch_spec(*self),
                forall|t: int| 0 <= t < k ==> !spec_dev_exists(st.pci@, self.nvidia@[t].functions@),
            decreases n - k,
        {
            if self.nvidia[k].is_present(st) {
                proof {
                    assert(spec_dev_exists(st.pci@, self.nvidia@[k as int].functions@));
                }
                return Ok(true);
            }
            k += 1;
        }
        Ok(false)
    }

    /// Power the discrete GPU on (a bus rescan; the kernel rebinds a driver
    /// by itself) or off (unbind every NVIDIA device, then remove every
    /// NVIDIA device, failing on the first error; completed steps are not
    /// rolled back). Fails with the not-switchable error, touching nothing,
    /// when switching is not possible.
    pub fn set_power(&self, power: bool, st: &mut KernelState) -> (r: Result<
        (),
        GraphicsDeviceError,
    >)
        requires
            self.wf(old(st).pci@),
        ensures
            set_power_post(*self, *old(st), *final(st), power, r),
    {
        if let Err(e) = self.switchable_or_fail() {
            return Err(e);
        }
        if power {
            if rescan_bus(st) {
                Ok(())
            } else {
                Err(GraphicsDeviceError::Rescan)
            }
        } else {
            proof {
                assert(self.nvidia@.skip(0) =~= self.nvidia@);
            }
            let r1 = self.unbind_all_from(st, 0);
            if let Err(e) = r1 {
                return Err(e);
            }
            self.remove_all_from(st, 0)
        }
    }

    /// Reconcile the live power state with the active driver: power on iff
    /// the reported vendor is "nvidia", otherwise power off. Equivalent to
    /// `set_power(get_vendor() == "nvidia")`.
    pub fn auto_power(&self, st: &mut KernelState) -> (r: Result<(), GraphicsDeviceError>)
        requires
            self.wf(old(st).pci@),
        ensures
            !old(st).modules_ok ==> r == Err::<(), GraphicsDeviceError>(
                GraphicsDeviceError::ModulesFetch,
            ) && *final(st) == *old(st),
            old(st).modules_ok ==> set_power_post(
                *self,
                *old(st),
                *final(st),
                nvidia_driver_loaded(old(st).modules@),
                r,
            ),
    {
        let vendor = match self.get_vendor(st) {
            Ok(v) => v,
            Err(e) => {
                return Err(e);
            },
        };
        let on = crate::str_eq(vendor.as_str(), "nvidia");
        proof {
            if !nvidia_driver_loaded(old(st).modules@) {
                assert(vendor@ == "intel"@);
                reveal_strlit("nvidia");
                reveal_strlit("intel");
                assert(vendor@ != "nvidia"@);
            }
        }
        self.set_power(on, st)
    }
}

} // verus!

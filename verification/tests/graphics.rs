use system76_power::graphics::{
    CommandKind, Graphics, GraphicsDevice, GraphicsDeviceError, NVIDIA_VENDOR_ID,
};
use system76_power::kernel::{DriverBinding, KernelState, PciFunction, SysCommand};

fn func(addr: &str, class: u32, vendor: u16) -> PciFunction {
    PciFunction {
        addr: addr.to_string(),
        class,
        vendor,
        readable: true,
        exists: true,
        driver: DriverBinding::Unbound,
        unbind_ok: true,
        rebinds: false,
        remove_ok: true,
    }
}

fn state(pci: Vec<PciFunction>) -> KernelState {
    KernelState {
        pci,
        rescan_ok: true,
        modules: Vec::new(),
        modules_ok: true,
        modprobe: String::new(),
        modprobe_open_ok: true,
        modprobe_write_ok: true,
        systemctl_status: Some(0),
        initramfs_status: Some(0),
        log: Vec::new(),
    }
}

/// The synthetic tree from the end-to-end scenario: one Intel function and
/// one NVIDIA device with a display function and an audio sibling.
fn hybrid_state() -> KernelState {
    state(vec![
        func("0000:00:02.0", 0x030000, 0x8086),
        func("0000:01:00.0", 0x030000, 0x10DE),
        func("0000:01:00.1", 0x040300, 0x10DE),
    ])
}

fn ids(devs: &[GraphicsDevice]) -> Vec<String> {
    devs.iter().map(|d| d.id.clone()).collect()
}

#[test]
fn classification_buckets() {
    let mut st = state(vec![
        func("0000:00:02.0", 0x030000, 0x8086),
        func("0000:01:00.0", 0x030000, 0x10DE),
        func("0000:02:00.0", 0x038000, 0x1002),
        func("0000:03:00.0", 0x030000, 0x1234),
        func("0000:04:00.0", 0x020000, 0x10DE),
    ]);
    let g = Graphics::new(&mut st).unwrap();
    assert_eq!(ids(&g.intel), vec!["0000:00:02.0".to_string()]);
    assert_eq!(ids(&g.nvidia), vec!["0000:01:00.0".to_string()]);
    assert_eq!(ids(&g.amd), vec!["0000:02:00.0".to_string()]);
    assert_eq!(ids(&g.other), vec!["0000:03:00.0".to_string()]);
    // the network-class function at 0000:04:00.0 is in no list
    let all: Vec<String> = [&g.amd, &g.intel, &g.nvidia, &g.other]
        .iter()
        .flat_map(|v| ids(v))
        .collect();
    assert_eq!(all.len(), 4);
    for addr in &all {
        assert_eq!(all.iter().filter(|a| *a == addr).count(), 1);
    }
}

#[test]
fn discovery_skips_unreadable() {
    let mut broken = func("0000:05:00.0", 0x030000, 0x10DE);
    broken.readable = false;
    let mut st = state(vec![func("0000:00:02.0", 0x030000, 0x8086), broken]);
    let g = Graphics::new(&mut st).unwrap();
    assert!(g.nvidia.is_empty());
    assert_eq!(ids(&g.intel), vec!["0000:00:02.0".to_string()]);
}

#[test]
fn sibling_functions_grouped() {
    let mut st = hybrid_state();
    let g = Graphics::new(&mut st).unwrap();
    assert_eq!(g.nvidia.len(), 1);
    assert_eq!(g.nvidia[0].functions, vec![1, 2]);
    assert_eq!(g.intel[0].functions, vec![0]);
}

#[test]
fn rescan_failure_is_fatal_to_discovery() {
    let mut st = hybrid_state();
    st.rescan_ok = false;
    let r = Graphics::new(&mut st);
    assert!(matches!(r, Err(GraphicsDeviceError::Rescan)));
    assert_eq!(st.log, vec![SysCommand::Rescan]);
}

#[test]
fn can_switch_needs_both_controllers() {
    let mut st = state(vec![func("0000:00:02.0", 0x030000, 0x8086)]);
    let g = Graphics::new(&mut st).unwrap();
    assert!(!g.can_switch());

    let mut st2 = hybrid_state();
    let g2 = Graphics::new(&mut st2).unwrap();
    assert!(g2.can_switch());
}

#[test]
fn not_switchable_mutates_nothing() {
    let mut st = state(vec![func("0000:00:02.0", 0x030000, 0x8086)]);
    let g = Graphics::new(&mut st).unwrap();
    let before = st.clone();
    assert_eq!(
        g.set_vendor("intel", &mut st),
        Err(GraphicsDeviceError::NotSwitchable)
    );
    assert_eq!(st, before);
    assert_eq!(
        g.set_power(false, &mut st),
        Err(GraphicsDeviceError::NotSwitchable)
    );
    assert_eq!(st, before);
    assert_eq!(
        g.set_power(true, &mut st),
        Err(GraphicsDeviceError::NotSwitchable)
    );
    assert_eq!(st, before);
    assert_eq!(g.get_power(&st), Err(GraphicsDeviceError::NotSwitchable));
    assert_eq!(st, before);
}

#[test]
fn power_off_unbound_devices_is_idempotent() {
    let mut st = hybrid_state();
    let g = Graphics::new(&mut st).unwrap();
    assert_eq!(g.get_power(&st), Ok(true));
    assert_eq!(g.set_power(false, &mut st), Ok(()));
    assert!(!st.pci[1].exists);
    assert!(!st.pci[2].exists);
    assert!(st.pci[0].exists);
    assert_eq!(g.get_power(&st), Ok(false));
    let before = st.clone();
    assert_eq!(g.set_power(false, &mut st), Ok(()));
    assert_eq!(st, before);
}

#[test]
fn power_off_logs_removes_in_order() {
    let mut st = hybrid_state();
    let g = Graphics::new(&mut st).unwrap();
    g.set_power(false, &mut st).unwrap();
    assert_eq!(
        st.log,
        vec![
            SysCommand::Rescan,
            SysCommand::Remove { func: "0000:01:00.0".to_string() },
            SysCommand::Remove { func: "0000:01:00.1".to_string() },
        ]
    );
}

#[test]
fn power_off_short_circuits_on_device_in_use() {
    let mut st = hybrid_state();
    // the audio sibling keeps its driver across the accepted unbind write
    st.pci[2].driver = DriverBinding::Bound("snd_hda_intel".to_string());
    st.pci[2].rebinds = true;
    // a second NVIDIA device that must never be reached
    st.pci.push(func("0000:02:00.0", 0x030000, NVIDIA_VENDOR_ID));
    let g = Graphics::new(&mut st).unwrap();
    assert_eq!(g.nvidia.len(), 2);
    let r = g.set_power(false, &mut st);
    assert_eq!(
        r,
        Err(GraphicsDeviceError::DeviceInUse {
            func: "0000:01:00.1".to_string(),
            driver: "snd_hda_intel".to_string(),
        })
    );
    // the function before the failure was removed, nothing at or beyond it
    assert!(!st.pci[1].exists);
    assert!(st.pci[2].exists);
    assert!(st.pci[3].exists);
}

#[test]
fn unbind_write_rejection_is_fatal() {
    let mut st = hybrid_state();
    st.pci[1].driver = DriverBinding::Bound("nvidia".to_string());
    st.pci[1].unbind_ok = false;
    let g = Graphics::new(&mut st).unwrap();
    let r = g.set_power(false, &mut st);
    assert_eq!(
        r,
        Err(GraphicsDeviceError::Unbind {
            func: "0000:01:00.0".to_string(),
            driver: "nvidia".to_string(),
        })
    );
    // the failure came before any remove
    assert!(st.pci[1].exists && st.pci[2].exists);
}

#[test]
fn unreadable_binding_is_a_pci_driver_error() {
    let mut st = hybrid_state();
    st.pci[2].driver = DriverBinding::Unreadable;
    let g = Graphics::new(&mut st).unwrap();
    let r = g.set_power(false, &mut st);
    assert_eq!(
        r,
        Err(GraphicsDeviceError::PciDriver { device: "0000:01:00.0".to_string() })
    );
}

#[test]
fn remove_write_rejection_is_fatal() {
    let mut st = hybrid_state();
    st.pci[2].remove_ok = false;
    let g = Graphics::new(&mut st).unwrap();
    let r = g.set_power(false, &mut st);
    assert_eq!(
        r,
        Err(GraphicsDeviceError::Remove { device: "0000:01:00.0".to_string() })
    );
    // the display function was already removed before the failure
    assert!(!st.pci[1].exists);
    assert!(st.pci[2].exists);
}

#[test]
fn power_on_rescans_the_bus() {
    let mut st = hybrid_state();
    let g = Graphics::new(&mut st).unwrap();
    g.set_power(false, &mut st).unwrap();
    assert_eq!(g.get_power(&st), Ok(false));
    assert_eq!(g.set_power(true, &mut st), Ok(()));
    assert!(st.pci[1].exists && st.pci[2].exists);
    assert_eq!(g.get_power(&st), Ok(true));
}

#[test]
fn power_on_rescan_failure_surfaces() {
    let mut st = hybrid_state();
    let g = Graphics::new(&mut st).unwrap();
    st.rescan_ok = false;
    assert_eq!(g.set_power(true, &mut st), Err(GraphicsDeviceError::Rescan));
}

#[test]
fn get_vendor_reports_active_driver() {
    let mut st = hybrid_state();
    let g = Graphics::new(&mut st).unwrap();
    st.modules = vec!["i915".to_string(), "ext4".to_string()];
    assert_eq!(g.get_vendor(&st), Ok("intel".to_string()));
    st.modules.push("nvidia".to_string());
    assert_eq!(g.get_vendor(&st), Ok("nvidia".to_string()));
    st.modules = vec!["nouveau".to_string()];
    assert_eq!(g.get_vendor(&st), Ok("nvidia".to_string()));
    st.modules_ok = false;
    assert_eq!(g.get_vendor(&st), Err(GraphicsDeviceError::ModulesFetch));
}

const INTEL_TEMPLATE: &str = "# Maintained by system76-power; do not edit\nblacklist i2c_nvidia_gpu\nblacklist nouveau\nblacklist nvidia\nblacklist nvidia-drm\nblacklist nvidia-modeset\nalias i2c_nvidia_gpu off\nalias nouveau off\nalias nvidia off\nalias nvidia-drm off\nalias nvidia-modeset off\n";
const NVIDIA_TEMPLATE: &str = "# Maintained by system76-power; do not edit\n";

#[test]
fn vendor_switch_round_trip_leaves_intel_template() {
    let mut st = hybrid_state();
    let g = Graphics::new(&mut st).unwrap();
    assert_eq!(g.set_vendor("nvidia", &mut st), Ok(()));
    assert_eq!(st.modprobe, NVIDIA_TEMPLATE);
    assert_eq!(g.set_vendor("intel", &mut st), Ok(()));
    assert_eq!(st.modprobe, INTEL_TEMPLATE);
    assert_eq!(
        st.log,
        vec![
            SysCommand::Rescan,
            SysCommand::ModprobeWrite,
            SysCommand::Systemctl { enable: true },
            SysCommand::UpdateInitramfs,
            SysCommand::ModprobeWrite,
            SysCommand::Systemctl { enable: false },
            SysCommand::UpdateInitramfs,
        ]
    );
}

#[test]
fn initramfs_failure_surfaces_with_status() {
    let mut st = hybrid_state();
    let g = Graphics::new(&mut st).unwrap();
    st.initramfs_status = Some(2);
    assert_eq!(
        g.set_vendor("intel", &mut st),
        Err(GraphicsDeviceError::UpdateInitramfs(2))
    );
    // the file write and the service toggle still happened, in order
    assert_eq!(st.modprobe, INTEL_TEMPLATE);
    assert_eq!(
        st.log,
        vec![
            SysCommand::Rescan,
            SysCommand::ModprobeWrite,
            SysCommand::Systemctl { enable: false },
            SysCommand::UpdateInitramfs,
        ]
    );
}

#[test]
fn service_toggle_failure_is_nonfatal_spawn_failure_is_not() {
    let mut st = hybrid_state();
    let g = Graphics::new(&mut st).unwrap();
    st.systemctl_status = Some(1);
    assert_eq!(g.set_vendor("nvidia", &mut st), Ok(()));
    st.systemctl_status = None;
    assert_eq!(
        g.set_vendor("nvidia", &mut st),
        Err(GraphicsDeviceError::Command { cmd: CommandKind::Systemctl })
    );
}

#[test]
fn modprobe_file_failures_surface() {
    let mut st = hybrid_state();
    let g = Graphics::new(&mut st).unwrap();
    st.modprobe_open_ok = false;
    assert_eq!(
        g.set_vendor("intel", &mut st),
        Err(GraphicsDeviceError::ModprobeFileOpen)
    );
    st.modprobe_open_ok = true;
    st.modprobe_write_ok = false;
    assert_eq!(
        g.set_vendor("intel", &mut st),
        Err(GraphicsDeviceError::ModprobeFileWrite)
    );
    assert_eq!(st.modprobe, "");
}

#[test]
fn initramfs_spawn_failure_surfaces() {
    let mut st = hybrid_state();
    let g = Graphics::new(&mut st).unwrap();
    st.initramfs_status = None;
    assert_eq!(
        g.set_vendor("intel", &mut st),
        Err(GraphicsDeviceError::Command { cmd: CommandKind::UpdateInitramfs })
    );
}

#[test]
fn auto_power_follows_active_vendor() {
    // active NVIDIA driver: auto_power behaves exactly like set_power(true)
    let mut a = hybrid_state();
    a.modules = vec!["nvidia".to_string()];
    let g = Graphics::new(&mut a).unwrap();
    let mut b = a.clone();
    let ra = g.auto_power(&mut a);
    let rb = g.set_power(true, &mut b);
    assert_eq!(ra, rb);
    assert_eq!(a, b);

    // integrated driver active: auto_power behaves exactly like set_power(false)
    let mut c = hybrid_state();
    c.modules = vec!["i915".to_string()];
    let g2 = Graphics::new(&mut c).unwrap();
    let mut d = c.clone();
    let rc = g2.auto_power(&mut c);
    let rd = g2.set_power(false, &mut d);
    assert_eq!(rc, rd);
    assert_eq!(c, d);

    // an unreadable module list is fatal before any mutation
    let mut e = hybrid_state();
    e.modules_ok = false;
    let g3 = Graphics::new(&mut e).unwrap();
    let before = e.clone();
    assert_eq!(g3.auto_power(&mut e), Err(GraphicsDeviceError::ModulesFetch));
    assert_eq!(e, before);
}

#[test]
fn end_to_end_hybrid_power_off() {
    let mut st = hybrid_state();
    let g = Graphics::new(&mut st).unwrap();
    assert!(g.can_switch());
    assert_eq!(g.get_power(&st), Ok(true));
    assert_eq!(g.set_power(false, &mut st), Ok(()));
    assert!(!st.pci[1].exists);
    assert!(!st.pci[2].exists);
    assert_eq!(g.get_power(&st), Ok(false));
}

#[test]
fn device_presence_tracks_nodes() {
    let mut st = hybrid_state();
    let g = Graphics::new(&mut st).unwrap();
    assert!(g.nvidia[0].is_present(&st));
    g.set_power(false, &mut st).unwrap();
    assert!(!g.nvidia[0].is_present(&st));
    assert!(g.intel[0].is_present(&st));
}

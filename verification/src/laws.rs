use vstd::prelude::*;

use crate::graphics::{
    can_switch_spec, class_addrs, classified_from, dev_ids, in_class, modprobe_intel_spec,
    spec_graphics_power, spec_power_off, spec_remove_dev, spec_remove_list, spec_unbind_dev,
    spec_unbind_list, vendor_class, set_vendor_post, CommandKind, GpuVendor, Graphics,
    GraphicsDevice, GraphicsDeviceError,
};
use crate::kernel::{DriverBinding, KernelState, PciFunction, SysCommand};

verus! {

/// The list a classification's devices are filed in.
pub open spec fn bucket_view(g: Graphics, c: GpuVendor) -> Seq<GraphicsDevice> {
    match c {
        GpuVendor::Amd => g.amd@,
        GpuVendor::Intel => g.intel@,
        GpuVendor::Nvidia => g.nvidia@,
        GpuVendor::Other => g.other@,
    }
}

proof fn lemma_filter_elem<A>(s: Seq<A>, pred: spec_fn(A) -> bool, k: int)
    requires
        0 <= k < s.filter(pred).len(),
    ensures
        exists|i: int| 0 <= i < s.len() && s[i] == s.filter(pred)[k],
    decreases s.len(),
{
    reveal(Seq::filter);
    s.lemma_filter_len(pred);
    if s.len() > 0 {
        let t = s.drop_last();
        if pred(s.last()) {
            if k < t.filter(pred).len() {
                lemma_filter_elem(t, pred, k);
                let i = choose|i: int| 0 <= i < t.len() && t[i] == t.filter(pred)[k];
                assert(s[i] == s.filter(pred)[k]);
            } else {
                assert(s[s.len() - 1] == s.filter(pred)[k]);
            }
        } else {
            lemma_filter_elem(t, pred, k);
            let i = choose|i: int| 0 <= i < t.len() && t[i] == t.filter(pred)[k];
            assert(s[i] == s.filter(pred)[k]);
        }
    }
}

/// The device at position `k` of classification `c`'s list stems from a
/// discovered display-class function of exactly that classification.
pub open spec fn stems_from(g: Graphics, pci: Seq<PciFunction>, c: GpuVendor, k: int) -> bool {
    exists|i: int|
        0 <= i < pci.len() && (#[trigger] pci[i]).addr == bucket_view(g, c)[k].id && in_class(
            pci[i],
            c,
        )
}

/// Each listed device stems from a display-class function of its own
/// classification, and no device appears in two different lists: the four
/// lists partition the discovered display-class functions.
pub proof fn lemma_classification_partition(g: Graphics, st: KernelState)
    requires
        classified_from(g, st.pci@),
        st.wf(),
    ensures
        forall|c: GpuVendor, k: int|
            0 <= k < bucket_view(g, c).len() ==> #[trigger] stems_from(g, st.pci@, c, k),
        forall|c1: GpuVendor, c2: GpuVendor, k1: int, k2: int|
            c1 != c2 && 0 <= k1 < bucket_view(g, c1).len() && 0 <= k2 < bucket_view(g, c2).len()
                ==> (#[trigger] bucket_view(g, c1)[k1]).id@ != (#[trigger] bucket_view(
                g,
                c2,
            )[k2]).id@,
{
    let pci = st.pci@;
    assert forall|c: GpuVendor, k: int| 0 <= k < bucket_view(g, c).len() implies #[trigger] stems_from(
        g,
        pci,
        c,
        k,
    ) by {
        let devs = bucket_view(g, c);
        let filtered = pci.filter(|f: PciFunction| in_class(f, c));
        assert(dev_ids(devs) == class_addrs(pci, c));
        assert(dev_ids(devs)[k] == devs[k].id);
        assert(class_addrs(pci, c)[k] == filtered[k].addr);
        lemma_filter_elem(pci, |f: PciFunction| in_class(f, c), k);
        pci.lemma_filter_pred(|f: PciFunction| in_class(f, c), k);
        let i = choose|i: int| 0 <= i < pci.len() && pci[i] == filtered[k];
        assert(pci[i].addr == devs[k].id && in_class(pci[i], c));
        assert(stems_from(g, pci, c, k));
    }
    assert forall|c1: GpuVendor, c2: GpuVendor, k1: int, k2: int|
        c1 != c2 && 0 <= k1 < bucket_view(g, c1).len() && 0 <= k2 < bucket_view(
            g,
            c2,
        ).len() implies (#[trigger] bucket_view(g, c1)[k1]).id@ != (#[trigger] bucket_view(
        g,
        c2,
    )[k2]).id@ by {
        assert(stems_from(g, pci, c1, k1) && stems_from(g, pci, c2, k2));
        let i1 = choose|i: int|
            0 <= i < pci.len() && pci[i].addr == bucket_view(g, c1)[k1].id && in_class(pci[i], c1);
        let i2 = choose|i: int|
            0 <= i < pci.len() && pci[i].addr == bucket_view(g, c2)[k2].id && in_class(pci[i], c2);
        if bucket_view(g, c1)[k1].id@ == bucket_view(g, c2)[k2].id@ {
            assert(pci[i1].addr@ == pci[i2].addr@);
            assert(i1 == i2);
            assert(vendor_class(pci[i1].vendor) == c1 && vendor_class(pci[i1].vendor) == c2);
        }
    }
}

/// Distinct indices, all in range: what a well-formed device's function
/// list provides.
pub open spec fn fns_wf(pci: Seq<PciFunction>, fns: Seq<usize>) -> bool {
    &&& forall|k: int| 0 <= k < fns.len() ==> (#[trigger] fns[k] as int) < pci.len()
    &&& forall|k1: int, k2: int| 0 <= k1 < k2 < fns.len() ==> fns[k1] != fns[k2]
}

/// Every function of every device is in range, with distinct indices per
/// device.
pub open spec fn devs_wf(pci: Seq<PciFunction>, devs: Seq<GraphicsDevice>) -> bool {
    forall|k: int| 0 <= k < devs.len() ==> fns_wf(pci, (#[trigger] devs[k]).functions@)
}

/// A function nothing stops from being removed: absent, or unbound with a
/// kernel that accepts the remove write.
pub open spec fn removable(f: PciFunction) -> bool {
    !f.exists || (f.driver is Unbound && f.remove_ok)
}

/// No function of any listed device is bound (or unreadable), and every
/// remove write is accepted.
pub open spec fn all_removable(pci: Seq<PciFunction>, devs: Seq<GraphicsDevice>) -> bool {
    forall|k: int, t: int|
        0 <= k < devs.len() && 0 <= t < devs[k].functions@.len() ==> {
            let f = pci[#[trigger] devs[k].functions@[t] as int];
            f.driver is Unbound && f.remove_ok
        }
}

/// No function of any listed device currently has a node.
pub open spec fn all_absent(pci: Seq<PciFunction>, devs: Seq<GraphicsDevice>) -> bool {
    forall|k: int, t: int|
        0 <= k < devs.len() && 0 <= t < devs[k].functions@.len()
            ==> !pci[#[trigger] devs[k].functions@[t] as int].exists
}

proof fn lemma_unbind_dev_no_bound(
    pci: Seq<PciFunction>,
    log: Seq<SysCommand>,
    fns: Seq<usize>,
    id: String,
)
    requires
        forall|k: int| 0 <= k < fns.len() ==> (#[trigger] fns[k] as int) < pci.len(),
        forall|k: int|
            0 <= k < fns.len() ==> !(pci[#[trigger] fns[k] as int].driver is Bound) && !(pci[fns[k]
                as int].driver is Unreadable),
    ensures
        spec_unbind_dev(pci, log, fns, id) == (pci, log, Ok::<(), GraphicsDeviceError>(())),
    decreases fns.len(),
{
    if fns.len() > 0 {
        assert(pci[fns[0] as int].driver is Unbound);
        assert forall|k: int| 0 <= k < fns.drop_first().len() implies (#[trigger] fns.drop_first()[k]
            as int) < pci.len() && !(pci[fns.drop_first()[k] as int].driver is Bound) && !(
        pci[fns.drop_first()[k] as int].driver is Unreadable) by {
            assert(fns.drop_first()[k] == fns[k + 1]);
        }
        lemma_unbind_dev_no_bound(pci, log, fns.drop_first(), id);
    }
}

proof fn lemma_unbind_list_no_bound(
    pci: Seq<PciFunction>,
    log: Seq<SysCommand>,
    devs: Seq<GraphicsDevice>,
)
    requires
        devs_wf(pci, devs),
        all_removable(pci, devs),
    ensures
        spec_unbind_list(pci, log, devs) == (pci, log, Ok::<(), GraphicsDeviceError>(())),
    decreases devs.len(),
{
    if devs.len() > 0 {
        lemma_unbind_dev_no_bound(pci, log, devs[0].functions@, devs[0].id);
        assert forall|k: int| 0 <= k < devs.drop_first().len() implies fns_wf(
            pci,
            (#[trigger] devs.drop_first()[k]).functions@,
        ) by {
            assert(devs.drop_first()[k] == devs[k + 1]);
        }
        assert forall|k: int, t: int|
            0 <= k < devs.drop_first().len() && 0 <= t < devs.drop_first()[k].functions@.len()
                implies {
            let f = pci[#[trigger] devs.drop_first()[k].functions@[t] as int];
            f.driver is Unbound && f.remove_ok
        } by {
            assert(devs.drop_first()[k] == devs[k + 1]);
        }
        lemma_unbind_list_no_bound(pci, log, devs.drop_first());
    }
}

proof fn lemma_remove_dev_clean(
    pci: Seq<PciFunction>,
    log: Seq<SysCommand>,
    fns: Seq<usize>,
    id: String,
)
    requires
        fns_wf(pci, fns),
        forall|k: int|
            0 <= k < fns.len() ==> pci[#[trigger] fns[k] as int].driver is Unbound && pci[fns[k]
                as int].remove_ok,
    ensures
        ({
            let (p1, l1, r1) = spec_remove_dev(pci, log, fns, id);
            &&& r1 == Ok::<(), GraphicsDeviceError>(())
            &&& p1.len() == pci.len()
            &&& forall|t: int| 0 <= t < fns.len() ==> !p1[#[trigger] fns[t] as int].exists
            &&& forall|i: int|
                0 <= i < pci.len() ==> p1[i] == pci[i] || p1[i] == (PciFunction {
                    exists: false,
                    ..pci[i]
                })
        }),
    decreases fns.len(),
{
    if fns.len() > 0 {
        let i = fns[0] as int;
        let f = pci[i];
        let rest = fns.drop_first();
        assert forall|k: int| 0 <= k < rest.len() implies (#[trigger] rest[k] as int) < pci.len()
            && pci[rest[k] as int].driver is Unbound && pci[rest[k] as int].remove_ok && rest[k]
            != fns[0] by {
            assert(rest[k] == fns[k + 1]);
        }
        assert forall|k1: int, k2: int| 0 <= k1 < k2 < rest.len() implies rest[k1] != rest[k2] by {
            assert(rest[k1] == fns[k1 + 1] && rest[k2] == fns[k2 + 1]);
        }
        let (p1, l1, r1) = spec_remove_dev(pci, log, fns, id);
        if f.exists {
            let pci1 = pci.update(i, PciFunction { exists: false, ..f });
            let log1 = log.push(SysCommand::Remove { func: f.addr });
            assert forall|k: int| 0 <= k < rest.len() implies pci1[#[trigger] rest[k]
                as int].driver is Unbound && pci1[rest[k] as int].remove_ok by {
                assert(rest[k] != fns[0]);
            }
            lemma_remove_dev_clean(pci1, log1, rest, id);
            let (p2, l2, r2) = spec_remove_dev(pci1, log1, rest, id);
            assert(p1 == p2 && r1 == r2);
            assert forall|t: int| 0 <= t < fns.len() implies !p1[#[trigger] fns[t]
                as int].exists by {
                if t == 0 {
                    assert(!pci1[i].exists);
                    assert(p2[i] == pci1[i] || p2[i] == (PciFunction {
                        exists: false,
                        ..pci1[i]
                    }));
                } else {
                    assert(rest[t - 1] == fns[t]);
                }
            }
            assert forall|j: int| 0 <= j < pci.len() implies p1[j] == pci[j] || p1[j]
                == (PciFunction { exists: false, ..pci[j] }) by {
                assert(p2[j] == pci1[j] || p2[j] == (PciFunction { exists: false, ..pci1[j] }));
                if j == i {
                    assert(pci1[j] == (PciFunction { exists: false, ..pci[j] }));
                    assert((PciFunction { exists: false, ..pci1[j] }) == (PciFunction {
                        exists: false,
                        ..pci[j]
                    }));
                } else {
                    assert(pci1[j] == pci[j]);
                }
            }
        } else {
            lemma_remove_dev_clean(pci, log, rest, id);
            let (p2, l2, r2) = spec_remove_dev(pci, log, rest, id);
            assert(p1 == p2 && r1 == r2);
            assert forall|t: int| 0 <= t < fns.len() implies !p1[#[trigger] fns[t]
                as int].exists by {
                if t == 0 {
                    assert(p2[i] == pci[i] || p2[i] == (PciFunction { exists: false, ..pci[i] }));
                } else {
                    assert(rest[t - 1] == fns[t]);
                }
            }
        }
    }
}

proof fn lemma_remove_list_clean(
    pci: Seq<PciFunction>,
    log: Seq<SysCommand>,
    devs: Seq<GraphicsDevice>,
)
    requires
        devs_wf(pci, devs),
        all_removable(pci, devs),
    ensures
        ({
            let (p1, l1, r1) = spec_remove_list(pci, log, devs);
            &&& r1 == Ok::<(), GraphicsDeviceError>(())
            &&& p1.len() == pci.len()
            &&& all_absent(p1, devs)
            &&& forall|i: int|
                0 <= i < pci.len() ==> p1[i] == pci[i] || p1[i] == (PciFunction {
                    exists: false,
                    ..pci[i]
                })
        }),
    decreases devs.len(),
{
    if devs.len() > 0 {
        lemma_remove_dev_clean(pci, log, devs[0].functions@, devs[0].id);
        let (p1, l1, r1) = spec_remove_dev(pci, log, devs[0].functions@, devs[0].id);
        let rest = devs.drop_first();
        assert forall|k: int| 0 <= k < rest.len() implies fns_wf(
            p1,
            (#[trigger] rest[k]).functions@,
        ) by {
            assert(rest[k] == devs[k + 1]);
        }
        assert forall|k: int, t: int|
            0 <= k < rest.len() && 0 <= t < rest[k].functions@.len() implies {
            let f = p1[#[trigger] rest[k].functions@[t] as int];
            f.driver is Unbound && f.remove_ok
        } by {
            assert(rest[k] == devs[k + 1]);
            let idx = rest[k].functions@[t] as int;
            assert(p1[idx] == pci[idx] || p1[idx] == (PciFunction { exists: false, ..pci[idx] }));
        }
        lemma_remove_list_clean(p1, l1, rest);
        let (p2, l2, r2) = spec_remove_list(p1, l1, rest);
        assert forall|k: int, t: int|
            0 <= k < devs.len() && 0 <= t < devs[k].functions@.len() implies !p2[#[trigger] devs[k].functions@[t]
            as int].exists by {
            if k == 0 {
                let idx = devs[0].functions@[t] as int;
                assert(!p1[idx].exists);
                assert(p2[idx] == p1[idx] || p2[idx] == (PciFunction { exists: false, ..p1[idx] }));
            } else {
                assert(rest[k - 1] == devs[k]);
            }
        }
        assert forall|i: int| 0 <= i < pci.len() implies p2[i] == pci[i] || p2[i] == (PciFunction {
            exists: false,
            ..pci[i]
        }) by {
            assert(p1[i] == pci[i] || p1[i] == (PciFunction { exists: false, ..pci[i] }));
            assert(p2[i] == p1[i] || p2[i] == (PciFunction { exists: false, ..p1[i] }));
        }
    }
}

/// Powering off a device set none of whose functions is bound to any driver
/// unbinds (a no-op) and then removes all of them: the batch succeeds, no
/// node of any listed device is left, and the power query over the result
/// reports off.
pub proof fn lemma_power_off_clean(
    pci: Seq<PciFunction>,
    log: Seq<SysCommand>,
    devs: Seq<GraphicsDevice>,
)
    requires
        devs_wf(pci, devs),
        all_removable(pci, devs),
    ensures
        ({
            let (p1, l1, r1) = spec_power_off(pci, log, devs);
            &&& r1 == Ok::<(), GraphicsDeviceError>(())
            &&& p1.len() == pci.len()
            &&& all_absent(p1, devs)
            &&& !spec_graphics_power(p1, devs)
        }),
{
    lemma_unbind_list_no_bound(pci, log, devs);
    lemma_remove_list_clean(pci, log, devs);
}

proof fn lemma_unbind_dev_absent(
    pci: Seq<PciFunction>,
    log: Seq<SysCommand>,
    fns: Seq<usize>,
    id: String,
)
    requires
        forall|k: int| 0 <= k < fns.len() ==> (#[trigger] fns[k] as int) < pci.len(),
        forall|k: int| 0 <= k < fns.len() ==> !pci[#[trigger] fns[k] as int].exists,
    ensures
        spec_unbind_dev(pci, log, fns, id) == (pci, log, Ok::<(), GraphicsDeviceError>(())),
    decreases fns.len(),
{
    if fns.len() > 0 {
        assert forall|k: int| 0 <= k < fns.drop_first().len() implies (#[trigger] fns.drop_first()[k]
            as int) < pci.len() && !pci[fns.drop_first()[k] as int].exists by {
            assert(fns.drop_first()[k] == fns[k + 1]);
        }
        lemma_unbind_dev_absent(pci, log, fns.drop_first(), id);
    }
}

proof fn lemma_remove_dev_absent(
    pci: Seq<PciFunction>,
    log: Seq<SysCommand>,
    fns: Seq<usize>,
    id: String,
)
    requires
        forall|k: int| 0 <= k < fns.len() ==> (#[trigger] fns[k] as int) < pci.len(),
        forall|k: int| 0 <= k < fns.len() ==> !pci[#[trigger] fns[k] as int].exists,
    ensures
        spec_remove_dev(pci, log, fns, id) == (pci, log, Ok::<(), GraphicsDeviceError>(())),
    decreases fns.len(),
{
    if fns.len() > 0 {
        assert forall|k: int| 0 <= k < fns.drop_first().len() implies (#[trigger] fns.drop_first()[k]
            as int) < pci.len() && !pci[fns.drop_first()[k] as int].exists by {
            assert(fns.drop_first()[k] == fns[k + 1]);
        }
        lemma_remove_dev_absent(pci, log, fns.drop_first(), id);
    }
}

/// Powering off a device set all of whose nodes are already gone is a
/// complete no-op that succeeds: the power-off batch is idempotent.
pub proof fn lemma_power_off_idempotent(
    pci: Seq<PciFunction>,
    log: Seq<SysCommand>,
    devs: Seq<GraphicsDevice>,
)
    requires
        devs_wf(pci, devs),
        all_absent(pci, devs),
    ensures
        spec_power_off(pci, log, devs) == (pci, log, Ok::<(), GraphicsDeviceError>(())),
    decreases devs.len(),
{
    lemma_unbind_list_absent(pci, log, devs);
    lemma_remove_list_absent(pci, log, devs);
}

proof fn lemma_unbind_list_absent(
    pci: Seq<PciFunction>,
    log: Seq<SysCommand>,
    devs: Seq<GraphicsDevice>,
)
    requires
        devs_wf(pci, devs),
        all_absent(pci, devs),
    ensures
        spec_unbind_list(pci, log, devs) == (pci, log, Ok::<(), GraphicsDeviceError>(())),
    decreases devs.len(),
{
    if devs.len() > 0 {
        lemma_unbind_dev_absent(pci, log, devs[0].functions@, devs[0].id);
        assert forall|k: int| 0 <= k < devs.drop_first().len() implies fns_wf(
            pci,
            (#[trigger] devs.drop_first()[k]).functions@,
        ) && forall|t: int|
            0 <= t < devs.drop_first()[k].functions@.len() ==> !pci[#[trigger] devs.drop_first()[k].functions@[t]
                as int].exists by {
            assert(devs.drop_first()[k] == devs[k + 1]);
        }
        lemma_unbind_list_absent(pci, log, devs.drop_first());
    }
}

proof fn lemma_remove_list_absent(
    pci: Seq<PciFunction>,
    log: Seq<SysCommand>,
    devs: Seq<GraphicsDevice>,
)
    requires
        devs_wf(pci, devs),
        all_absent(pci, devs),
    ensures
        spec_remove_list(pci, log, devs) == (pci, log, Ok::<(), GraphicsDeviceError>(())),
    decreases devs.len(),
{
    if devs.len() > 0 {
        lemma_remove_dev_absent(pci, log, devs[0].functions@, devs[0].id);
        assert forall|k: int| 0 <= k < devs.drop_first().len() implies fns_wf(
            pci,
            (#[trigger] devs.drop_first()[k]).functions@,
        ) && forall|t: int|
            0 <= t < devs.drop_first()[k].functions@.len() ==> !pci[#[trigger] devs.drop_first()[k].functions@[t]
                as int].exists by {
            assert(devs.drop_first()[k] == devs[k + 1]);
        }
        lemma_remove_list_absent(pci, log, devs.drop_first());
    }
}

/// A removal pass that reaches a function still bound to a driver fails
/// with the device-in-use error naming that function and driver, and leaves
/// every function at or beyond the point of failure untouched: the pass
/// short-circuits.
pub proof fn lemma_remove_in_use(
    pci: Seq<PciFunction>,
    log: Seq<SysCommand>,
    fns: Seq<usize>,
    id: String,
    m: int,
)
    requires
        fns_wf(pci, fns),
        0 <= m < fns.len(),
        pci[fns[m] as int].exists,
        pci[fns[m] as int].driver is Bound,
        forall|t: int| 0 <= t < m ==> removable(pci[#[trigger] fns[t] as int]),
    ensures
        ({
            let (p1, l1, r1) = spec_remove_dev(pci, log, fns, id);
            &&& r1 matches Err(GraphicsDeviceError::DeviceInUse { func, driver }) && func
                == pci[fns[m] as int].addr && pci[fns[m] as int].driver == DriverBinding::Bound(
                driver,
            )
            &&& forall|t: int| m <= t < fns.len() ==> p1[#[trigger] fns[t] as int] == pci[fns[t] as int]
        }),
    decreases m,
{
    let i = fns[0] as int;
    let f = pci[i];
    let rest = fns.drop_first();
    if m == 0 {
    } else {
        assert(removable(f));
        assert forall|k1: int, k2: int| 0 <= k1 < k2 < rest.len() implies rest[k1] != rest[k2] by {
            assert(rest[k1] == fns[k1 + 1] && rest[k2] == fns[k2 + 1]);
        }
        assert forall|k: int| 0 <= k < rest.len() implies (#[trigger] rest[k] as int)
            < pci.len() by {
            assert(rest[k] == fns[k + 1]);
        }
        assert(rest[m - 1] == fns[m]);
        if f.exists {
            let pci1 = pci.update(i, PciFunction { exists: false, ..f });
            let log1 = log.push(SysCommand::Remove { func: f.addr });
            assert forall|t: int| 0 <= t < m - 1 implies removable(pci1[#[trigger] rest[t]
                as int]) by {
                assert(rest[t] == fns[t + 1]);
                assert(fns[t + 1] != fns[0]);
            }
            assert(fns[m] != fns[0]);
            assert(pci1[rest[m - 1] as int] == pci[fns[m] as int]);
            lemma_remove_in_use(pci1, log1, rest, id, m - 1);
            assert forall|t: int| m <= t < fns.len() implies spec_remove_dev(
                pci,
                log,
                fns,
                id,
            ).0[#[trigger] fns[t] as int] == pci[fns[t] as int] by {
                assert(rest[t - 1] == fns[t]);
                assert(fns[t] != fns[0]);
                assert(pci1[fns[t] as int] == pci[fns[t] as int]);
            }
        } else {
            assert forall|t: int| 0 <= t < m - 1 implies removable(pci[#[trigger] rest[t]
                as int]) by {
                assert(rest[t] == fns[t + 1]);
            }
            lemma_remove_in_use(pci, log, rest, id, m - 1);
            assert forall|t: int| m <= t < fns.len() implies spec_remove_dev(
                pci,
                log,
                fns,
                id,
            ).0[#[trigger] fns[t] as int] == pci[fns[t] as int] by {
                assert(rest[t - 1] == fns[t]);
            }
        }
    }
}

/// Selecting the NVIDIA preference and then the Intel preference leaves the
/// modprobe file holding exactly the Intel template, and each selection
/// invoked the initramfs regeneration after its file write and service
/// toggle; a nonzero exit status of that command surfaces as the fatal
/// update-initramfs error carrying the status.
pub proof fn lemma_vendor_switch_round(
    g: Graphics,
    s0: KernelState,
    s1: KernelState,
    s2: KernelState,
    r1: Result<(), GraphicsDeviceError>,
    r2: Result<(), GraphicsDeviceError>,
)
    requires
        can_switch_spec(g),
        set_vendor_post(g, s0, s1, true, r1),
        set_vendor_post(g, s1, s2, false, r2),
        s0.modprobe_open_ok,
        s0.modprobe_write_ok,
        s0.systemctl_status is Some,
    ensures
        s2.modprobe@ == modprobe_intel_spec(),
        s2.log@ == s0.log@ + seq![
            SysCommand::ModprobeWrite,
            SysCommand::Systemctl { enable: true },
            SysCommand::UpdateInitramfs,
            SysCommand::ModprobeWrite,
            SysCommand::Systemctl { enable: false },
            SysCommand::UpdateInitramfs,
        ],
        match s0.initramfs_status {
            Some(code) => if code != 0 {
                r2 == Err::<(), GraphicsDeviceError>(GraphicsDeviceError::UpdateInitramfs(code))
            } else {
                r2 == Ok::<(), GraphicsDeviceError>(())
            },
            None => r2 == Err::<(), GraphicsDeviceError>(
                GraphicsDeviceError::Command { cmd: CommandKind::UpdateInitramfs },
            ),
        },
{
    assert(s2.log@ =~= s0.log@ + seq![
        SysCommand::ModprobeWrite,
        SysCommand::Systemctl { enable: true },
        SysCommand::UpdateInitramfs,
        SysCommand::ModprobeWrite,
        SysCommand::Systemctl { enable: false },
        SysCommand::UpdateInitramfs,
    ]);
}

} // verus!

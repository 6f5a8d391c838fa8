use system76_power::cpufreq::{
    frequency_maximum, frequency_minimum, num_cpus, performance, powersave, set_frequency_maximum,
    set_frequency_minimum, set_governor, sys_path,
};

#[test]
fn sys_path_formats_core_number() {
    assert_eq!(sys_path(0), "/sys/devices/system/cpu/cpu0/cpufreq/");
    assert_eq!(sys_path(7), "/sys/devices/system/cpu/cpu7/cpufreq/");
    assert_eq!(sys_path(12), "/sys/devices/system/cpu/cpu12/cpufreq/");
    assert_eq!(sys_path(105), "/sys/devices/system/cpu/cpu105/cpufreq/");
}

#[test]
fn frequency_writes_name_their_files() {
    let w = set_frequency_maximum(1, 4300000);
    assert_eq!(w.path, "/sys/devices/system/cpu/cpu1/cpufreq/scaling_max_freq");
    assert_eq!(w.value, "4300000");
    let w = set_frequency_minimum(3, 400000);
    assert_eq!(w.path, "/sys/devices/system/cpu/cpu3/cpufreq/scaling_min_freq");
    assert_eq!(w.value, "400000");
    let w = set_governor(2, "powersave\n");
    assert_eq!(w.path, "/sys/devices/system/cpu/cpu2/cpufreq/scaling_governor");
    assert_eq!(w.value, "powersave\n");
}

#[test]
fn powersave_halves_the_maximum() {
    let plan = powersave(Some(2), Some(800000), Some(4400000));
    assert_eq!(plan.len(), 2);
    assert_eq!(plan[0].minimum.value, "800000");
    assert_eq!(plan[0].maximum.value, "2200000");
    assert_eq!(plan[0].governor.value, "powersave\n");
    assert_eq!(
        plan[1].minimum.path,
        "/sys/devices/system/cpu/cpu1/cpufreq/scaling_min_freq"
    );
    assert_eq!(plan[1].maximum.value, "2200000");
}

#[test]
fn performance_restores_the_full_range() {
    let plan = performance(Some(2), Some(800000), Some(4400000));
    assert_eq!(plan.len(), 2);
    assert_eq!(plan[0].minimum.value, "800000");
    assert_eq!(plan[0].maximum.value, "4400000");
    assert_eq!(plan[0].governor.value, "performance\n");
    assert_eq!(
        plan[1].governor.path,
        "/sys/devices/system/cpu/cpu1/cpufreq/scaling_governor"
    );
}

#[test]
fn missing_readings_plan_nothing() {
    assert!(powersave(None, Some(1), Some(2)).is_empty());
    assert!(powersave(Some(2), None, Some(2)).is_empty());
    assert!(powersave(Some(2), Some(1), None).is_empty());
    assert!(performance(None, None, None).is_empty());
}

#[test]
fn frequency_fields_parse_with_trailing_whitespace() {
    assert_eq!(frequency_maximum("4400000\n"), Some(4400000));
    assert_eq!(frequency_minimum("400000"), Some(400000));
    assert_eq!(frequency_maximum("  \n"), None);
    assert_eq!(frequency_maximum(""), None);
    assert_eq!(frequency_maximum("44x0\n"), None);
    assert_eq!(frequency_maximum("18446744073709551615"), Some(usize::MAX));
    assert_eq!(frequency_maximum("18446744073709551616"), None);
}

#[test]
fn num_cpus_reads_the_upper_bound_of_the_range() {
    assert_eq!(num_cpus("0-7\n"), Some(7));
    assert_eq!(num_cpus("0-127\n"), Some(127));
    assert_eq!(num_cpus("4\n"), None);
    assert_eq!(num_cpus("0-\n"), None);
    assert_eq!(num_cpus("0-x\n"), None);
}

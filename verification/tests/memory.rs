use viaduct_core::{breakdown_from_rollup, memory_mb_from_status, MemoryBreakdown};

#[test]
fn rollup_fields_are_read_in_mb() {
    let text = "55f3a000-7ffd ---p 00000000 00:00 0 [rollup]\nRss:              204800 kB\nPss:              150000 kB\nPss_File:          10240 kB\nPss_Shmem:          2048 kB\nAnonymous:        102400 kB\nSwap:                  0 kB\n";
    assert_eq!(
        breakdown_from_rollup(text),
        MemoryBreakdown { rss_mb: 200, anon_mb: 100, file_mb: 10, shmem_mb: 2, swap_mb: 0 }
    );
}

#[test]
fn rollup_unparsable_numbers_read_as_zero_and_missing_words_skip() {
    let text = "Rss: 4096 kB\nRss: lots\nAnonymous:\r\nSwap:2048";
    assert_eq!(
        breakdown_from_rollup(text),
        MemoryBreakdown { rss_mb: 0, anon_mb: 0, file_mb: 0, shmem_mb: 0, swap_mb: 2 }
    );
    assert_eq!(breakdown_from_rollup(""), MemoryBreakdown::default());
}

#[test]
fn status_vm_rss_and_hwm_in_mb() {
    let text = "Name:\tviaduct\nVmHWM:\t  409600 kB\nVmRSS:\t  307200 kB\nThreads:\t12\n";
    assert_eq!(memory_mb_from_status(text), (300, 400));
    assert_eq!(memory_mb_from_status("VmRSS:\n"), (0, 0));
    assert_eq!(memory_mb_from_status("VmRSS: 2048 kB\r\nVmRSS: 1023 kB"), (0, 0));
    assert_eq!(memory_mb_from_status("VmRSS: +99999999999999999999999 kB"), (0, 0));
}

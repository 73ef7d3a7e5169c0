use minix_ipc::utils::minix_process::MinixProcess;
use minix_ipc::utils::minix_process_table::{MinixProcessTable, MAX_PROCESSES};
use minix_ipc::utils::minix_shared::{SharedImage, SHARED_BASE_ADDR};

#[test]
fn new_table_has_no_process() {
    let table = MinixProcessTable::new();
    for endpoint in 0..MAX_PROCESSES as i32 {
        assert!(table.get(endpoint).is_none());
    }
    assert!(table.get(-1).is_none());
    assert!(table.get(256).is_none());
    assert!(table.get(31744).is_none());
    assert!(table.pid_to_endpoint(1).is_none());
    assert!(table.get_by_pid(1).is_none());
    assert_eq!(*table.usermapped(), SharedImage::default());
}

#[test]
fn insert_get_and_remove() {
    let mut table = MinixProcessTable::new();
    assert_eq!(table.insert(MinixProcess::new(500, "a"), 41), Ok(()));
    assert_eq!(table.insert(MinixProcess::new(501, "b"), 42), Ok(()));
    assert_eq!(table.insert(MinixProcess::new(502, "c"), 41), Err(()));
    assert_eq!(table.insert(MinixProcess::new(503, "d"), 256), Err(()));
    assert_eq!(table.insert(MinixProcess::new(504, "e"), -1), Err(()));
    assert_eq!(table.get(41).unwrap().pid(), 500);
    assert_eq!(table.get(41).unwrap().name, "a");
    assert_eq!(table.get(42).unwrap().pid(), 501);
    assert!(table.get(43).is_none());
    assert_eq!(table.pid_to_endpoint(500), Some(41));
    assert_eq!(table.pid_to_endpoint(501), Some(42));
    assert_eq!(table.pid_to_endpoint(502), None);
    assert_eq!(table.get_by_pid(501).unwrap().name, "b");
    assert!(table.get_by_pid(503).is_none());

    table.get_mut(42).unwrap().s_flags = 0x100;
    assert_eq!(table.get(42).unwrap().s_flags, 0x100);
    assert!(table.get_mut(43).is_none());
    assert!(table.get_mut(-7).is_none());

    let removed = table.remove(41).unwrap();
    assert_eq!(removed.pid(), 500);
    assert!(table.get(41).is_none());
    assert_eq!(table.pid_to_endpoint(500), None);
    assert!(table.remove(41).is_none());
    assert!(table.remove(1000).is_none());
    assert_eq!(table.insert(MinixProcess::new(502, "c"), 41), Ok(()));
    assert_eq!(table.get(41).unwrap().name, "c");

    table.clear();
    assert!(table.get(41).is_none());
    assert!(table.get(42).is_none());
}

#[test]
fn first_and_last_slot() {
    let mut table = MinixProcessTable::new();
    assert_eq!(table.insert(MinixProcess::new(1, "pm"), 0), Ok(()));
    assert_eq!(table.insert(MinixProcess::new(2, "last"), 255), Ok(()));
    assert_eq!(table.get(0).unwrap().pid(), 1);
    assert_eq!(table.get(255).unwrap().pid(), 2);
}

#[test]
fn shared_image_at_boot() {
    let image = SharedImage::default();
    assert_eq!(image.minix_kerninfo.kerninfo_magic, 0xFC3B84BF);
    assert_eq!(image.minix_kerninfo.kclockinfo_ptr, 0xF1002000 + 56);
    assert_eq!(image.minix_kerninfo.kinfo_ptr, 0);
    assert_eq!(image.kclockinfo.hz, 16 * 1024 * 1024);
    assert_eq!(image.kclockinfo.uptime, 0);
    assert_eq!(SHARED_BASE_ADDR, 0xF1002000);
    let bytes = image.to_bytes();
    assert_eq!(bytes.len(), 80);
    assert_eq!(&bytes[0..4], &[0xBF, 0x84, 0x3B, 0xFC]);
    assert_eq!(&bytes[52..56], &[0x38, 0x20, 0x00, 0xF1]);
    assert_eq!(&bytes[76..80], &[0, 0, 0, 1]);
    assert!(bytes[4..52].iter().all(|b| *b == 0));
}

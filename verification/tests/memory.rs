use paged_memory::page::{Page, CAPACITY};
use paged_memory::process::{Process, PROCESS_SIZE};
use paged_memory::ram::{MemoryError, Ram, Usage, MAX_PAGE_COUNT, PAGE_DIM, PAGE_SIZE, RAM_SIZE};

fn payload(seed: u8) -> [u8; PROCESS_SIZE] {
    let mut bytes = [0u8; PROCESS_SIZE];
    for (i, byte) in bytes.iter_mut().enumerate() {
        *byte = seed.wrapping_add(i as u8).wrapping_mul(7) | 1;
    }
    bytes
}

fn window(ram: &Ram, start: usize, len: usize) -> Vec<u8> {
    (start..start + len).map(|i| ram.read(i).unwrap()).collect()
}

#[test]
fn page_load_unload_match() {
    const PID2: u16 = 123;
    let mut ram = Ram::new();
    let mut page = Page::new(0, &ram).unwrap();
    let first_process = Process::new();
    let second_process = Process::with_pid(PID2);
    page.load_process(&mut ram, &first_process).unwrap();
    page.load_process(&mut ram, &second_process).unwrap();
    assert_eq!(
        first_process.pid(),
        page.unload_process(&mut ram, first_process.pid()).unwrap().pid()
    );
    assert_eq!(PID2, page.unload_process(&mut ram, PID2).unwrap().pid());
}

#[test]
#[should_panic]
fn page_incorrect_unload() {
    let mut ram = Ram::new();
    let mut page = Page::new(0, &ram).unwrap();
    let _ = page.unload_process(&mut ram, 321).unwrap();
}

#[test]
fn process_load_unload_match() {
    const PID2: u16 = 123;
    let mut ram = Ram::new();
    let mut page = Page::new(PAGE_SIZE, &ram).unwrap();
    let first_process = Process::new();
    let second_process = Process::with_pid(PID2);
    page.load_process(&mut ram, &first_process).unwrap();
    page.load_process(&mut ram, &second_process).unwrap();
    assert_eq!(
        first_process.pid(),
        page.unload_process(&mut ram, first_process.pid()).unwrap().pid()
    );
    assert_eq!(PID2, page.unload_process(&mut ram, PID2).unwrap().pid());
}

#[test]
#[should_panic]
fn process_incorrect_unload() {
    let mut ram = Ram::new();
    let mut page = Page::new(PAGE_SIZE, &ram).unwrap();
    let _ = page.unload_process(&mut ram, 321).unwrap();
}

#[test]
fn sizes_fit_together() {
    assert_eq!(PAGE_DIM, 16);
    assert_eq!(PAGE_SIZE, 256);
    assert_eq!(PAGE_SIZE, PAGE_DIM * PAGE_DIM);
    assert_eq!(RAM_SIZE, PAGE_SIZE * MAX_PAGE_COUNT);
    assert_eq!(PROCESS_SIZE, 32);
    assert_eq!(CAPACITY, PAGE_SIZE / PROCESS_SIZE);
    let ram = Ram::new();
    assert_eq!(ram.size(), 512);
    let page = Page::new(0, &ram).unwrap();
    assert_eq!(page.capacity(), 8);
}

#[test]
fn fresh_ram_is_zero_and_unused() {
    let ram = Ram::new();
    for i in 0..RAM_SIZE {
        assert_eq!(ram.read(i), Ok(0));
    }
    assert_eq!(ram.usage(), Usage { nonzero: 0, total: 512 });
}

#[test]
fn usage_counts_the_bytes_that_are_not_zero() {
    let mut ram = Ram::new();
    ram.write(0, 1).unwrap();
    ram.write(17, 0).unwrap();
    ram.write(300, 255).unwrap();
    ram.write(511, 9).unwrap();
    assert_eq!(ram.usage(), Usage { nonzero: 3, total: 512 });
    ram.write(300, 0).unwrap();
    let usage = ram.usage();
    assert_eq!(usage.nonzero, 2);
    let fraction = usage.nonzero as f64 / usage.total as f64;
    assert_eq!(fraction, 2.0 / 512.0);
}

#[test]
fn usage_is_positive_after_loads() {
    let mut ram = Ram::new();
    let mut page = Page::new(0, &ram).unwrap();
    let mut one_byte = [0u8; PROCESS_SIZE];
    one_byte[31] = 4;
    for pid in 0..3u16 {
        page.load_process(&mut ram, &Process::from_parts(pid, one_byte)).unwrap();
        assert!(ram.usage().nonzero > 0);
    }
    assert_eq!(ram.usage(), Usage { nonzero: 3, total: RAM_SIZE });
}

#[test]
fn usage_misses_a_payload_of_zeros() {
    let mut ram = Ram::new();
    let mut page = Page::new(0, &ram).unwrap();
    page.load_process(&mut ram, &Process::from_parts(1, [0u8; PROCESS_SIZE])).unwrap();
    assert_eq!(page.occupancy(), 1);
    assert_eq!(ram.usage().nonzero, 0);
}

#[test]
fn ram_access_out_of_bounds() {
    let mut ram = Ram::new();
    assert_eq!(ram.read(RAM_SIZE), Err(MemoryError::OutOfBounds));
    assert_eq!(ram.write(RAM_SIZE, 1), Err(MemoryError::OutOfBounds));
    assert_eq!(ram.hold(RAM_SIZE), Err(MemoryError::OutOfBounds));
    assert_eq!(ram.release(RAM_SIZE), Err(MemoryError::OutOfBounds));
    assert_eq!(ram.read(usize::MAX), Err(MemoryError::OutOfBounds));
    assert_eq!(ram.write(RAM_SIZE - 1, 1), Ok(()));
    assert_eq!(ram.read(RAM_SIZE - 1), Ok(1));
}

#[test]
fn held_byte_refuses_access() {
    let mut ram = Ram::new();
    ram.write(5, 77).unwrap();
    assert_eq!(ram.hold(5), Ok(()));
    assert_eq!(ram.hold(5), Err(MemoryError::ConcurrentAccessConflict));
    assert_eq!(ram.read(5), Err(MemoryError::ConcurrentAccessConflict));
    assert_eq!(ram.write(5, 1), Err(MemoryError::ConcurrentAccessConflict));
    assert_eq!(ram.read(4), Ok(0));
    assert!(ram.is_free(0, 5));
    assert!(!ram.is_free(0, 6));
    assert!(ram.is_free(6, 506));
    assert_eq!(ram.release(5), Ok(()));
    assert_eq!(ram.read(5), Ok(77));
    assert_eq!(ram.release(5), Ok(()));
    assert!(ram.is_free(0, RAM_SIZE));
    ram.hold(RAM_SIZE - 1).unwrap();
    assert!(!ram.is_free(500, usize::MAX));
    assert!(!ram.is_free(RAM_SIZE - 1, 1));
    assert!(ram.is_free(RAM_SIZE - 1, 0));
    assert!(ram.is_free(RAM_SIZE, 10));
    assert!(ram.is_free(usize::MAX, usize::MAX));
}

#[test]
fn window_out_of_bounds() {
    let ram = Ram::new();
    assert!(matches!(Page::new(RAM_SIZE - PAGE_SIZE + 1, &ram), Err(MemoryError::OutOfBounds)));
    assert!(matches!(Page::new(RAM_SIZE, &ram), Err(MemoryError::OutOfBounds)));
    assert!(matches!(Page::new(usize::MAX, &ram), Err(MemoryError::OutOfBounds)));
    let last = Page::new(RAM_SIZE - PAGE_SIZE, &ram).unwrap();
    assert_eq!(last.start(), 256);
    assert_eq!(last.occupancy(), 0);
    assert_eq!(last.offset_of(0), None);
}

#[test]
fn eight_loads_fill_a_page() {
    let mut ram = Ram::new();
    let mut page = Page::new(0, &ram).unwrap();
    for n in 0..8u16 {
        assert_eq!(page.occupancy(), n as usize);
        assert_eq!(page.load_process(&mut ram, &Process::from_parts(100 + n, payload(n as u8))), Ok(()));
        assert_eq!(page.offset_of(100 + n), Some(n as usize * 32));
    }
    assert_eq!(page.occupancy(), 8);
    assert_eq!(page.occupancy(), page.capacity());
    let before = window(&ram, 0, RAM_SIZE);
    assert_eq!(
        page.load_process(&mut ram, &Process::from_parts(999, payload(9))),
        Err(MemoryError::PageFull)
    );
    assert_eq!(page.occupancy(), 8);
    assert_eq!(page.offset_of(999), None);
    assert_eq!(window(&ram, 0, RAM_SIZE), before);
    for n in 0..8u16 {
        assert_eq!(window(&ram, n as usize * 32, 32), payload(n as u8).to_vec());
    }
    assert_eq!(window(&ram, PAGE_SIZE, PAGE_SIZE), vec![0u8; PAGE_SIZE]);
}

#[test]
fn load_writes_into_the_window_of_its_page() {
    let mut ram = Ram::new();
    let mut page = Page::new(PAGE_SIZE, &ram).unwrap();
    page.load_process(&mut ram, &Process::from_parts(1, payload(1))).unwrap();
    page.load_process(&mut ram, &Process::from_parts(2, payload(2))).unwrap();
    assert_eq!(window(&ram, 0, PAGE_SIZE), vec![0u8; PAGE_SIZE]);
    assert_eq!(window(&ram, 256, 32), payload(1).to_vec());
    assert_eq!(window(&ram, 288, 32), payload(2).to_vec());
    assert_eq!(window(&ram, 320, 192), vec![0u8; 192]);
    assert_eq!(page.offset_of(2), Some(32));
}

#[test]
fn unload_returns_what_was_loaded_and_clears_the_slot() {
    let mut ram = Ram::new();
    let mut page = Page::new(0, &ram).unwrap();
    let first = Process::from_parts(7, payload(3));
    let second = Process::from_parts(8, payload(4));
    page.load_process(&mut ram, &first).unwrap();
    page.load_process(&mut ram, &second).unwrap();
    let back = page.unload_process(&mut ram, 8).unwrap();
    assert_eq!(back.pid(), 8);
    assert_eq!(back.instructions(), payload(4));
    assert!(back == second);
    assert!(back != first);
    assert_eq!(window(&ram, 32, 32), vec![0u8; 32]);
    assert_eq!(window(&ram, 0, 32), payload(3).to_vec());
    assert_eq!(page.occupancy(), 1);
    assert_eq!(page.offset_of(8), None);
    assert_eq!(page.offset_of(7), Some(0));
}

#[test]
fn unknown_pid_changes_nothing() {
    let mut ram = Ram::new();
    let mut page = Page::new(0, &ram).unwrap();
    page.load_process(&mut ram, &Process::from_parts(1, payload(1))).unwrap();
    let before = window(&ram, 0, RAM_SIZE);
    assert!(matches!(page.unload_process(&mut ram, 2), Err(MemoryError::UnknownPid)));
    assert_eq!(page.occupancy(), 1);
    assert_eq!(page.offset_of(1), Some(0));
    assert_eq!(page.offset_of(2), None);
    assert_eq!(window(&ram, 0, RAM_SIZE), before);
    page.unload_process(&mut ram, 1).unwrap();
    assert!(matches!(page.unload_process(&mut ram, 1), Err(MemoryError::UnknownPid)));
    assert_eq!(page.occupancy(), 0);
}

#[test]
fn bump_offset_collides_after_unload() {
    let mut ram = Ram::new();
    let mut page = Page::new(0, &ram).unwrap();
    page.load_process(&mut ram, &Process::from_parts(1, payload(1))).unwrap();
    page.load_process(&mut ram, &Process::from_parts(2, payload(2))).unwrap();
    assert_eq!(page.offset_of(1), Some(0));
    assert_eq!(page.offset_of(2), Some(32));
    page.unload_process(&mut ram, 1).unwrap();
    assert_eq!(page.occupancy(), 1);
    page.load_process(&mut ram, &Process::from_parts(3, payload(3))).unwrap();
    assert_eq!(page.occupancy(), 2);
    assert_eq!(page.offset_of(2), Some(32));
    assert_eq!(page.offset_of(3), Some(32));
    assert_eq!(window(&ram, 0, 32), vec![0u8; 32]);
    assert_eq!(window(&ram, 32, 32), payload(3).to_vec());
    let second = page.unload_process(&mut ram, 2).unwrap();
    assert_eq!(second.instructions(), payload(3));
    let third = page.unload_process(&mut ram, 3).unwrap();
    assert_eq!(third.instructions(), [0u8; PROCESS_SIZE]);
}

#[test]
fn loading_a_pid_twice_keeps_one_entry() {
    let mut ram = Ram::new();
    let mut page = Page::new(0, &ram).unwrap();
    page.load_process(&mut ram, &Process::from_parts(5, payload(1))).unwrap();
    page.load_process(&mut ram, &Process::from_parts(5, payload(2))).unwrap();
    assert_eq!(page.occupancy(), 2);
    assert_eq!(page.offset_of(5), Some(32));
    assert_eq!(page.unload_process(&mut ram, 5).unwrap().instructions(), payload(2));
    assert_eq!(page.occupancy(), 1);
    assert!(matches!(page.unload_process(&mut ram, 5), Err(MemoryError::UnknownPid)));
}

#[test]
fn unloading_everything_leaves_zeros() {
    let mut ram = Ram::new();
    let mut page = Page::new(0, &ram).unwrap();
    for pid in 0..5u16 {
        page.load_process(&mut ram, &Process::from_parts(pid, payload(pid as u8))).unwrap();
    }
    assert_eq!(ram.usage().nonzero, 5 * 32);
    for pid in 0..5u16 {
        let process = page.unload_process(&mut ram, pid).unwrap();
        assert_eq!(process, Process::from_parts(pid, payload(pid as u8)));
        assert_eq!(page.occupancy(), 4 - pid as usize);
    }
    assert_eq!(page.occupancy(), 0);
    assert_eq!(window(&ram, 0, PAGE_SIZE), vec![0u8; PAGE_SIZE]);
    assert_eq!(ram.usage().nonzero, 0);
}

#[test]
fn held_byte_refuses_load_and_unload() {
    let mut ram = Ram::new();
    let mut page = Page::new(0, &ram).unwrap();
    page.load_process(&mut ram, &Process::from_parts(1, payload(1))).unwrap();
    ram.hold(63).unwrap();
    let before = window(&ram, 0, 63);
    assert_eq!(
        page.load_process(&mut ram, &Process::from_parts(2, payload(2))),
        Err(MemoryError::ConcurrentAccessConflict)
    );
    assert_eq!(page.occupancy(), 1);
    assert_eq!(page.offset_of(2), None);
    assert_eq!(window(&ram, 0, 63), before);
    ram.release(63).unwrap();
    assert_eq!(window(&ram, 32, 32), vec![0u8; 32]);
    page.load_process(&mut ram, &Process::from_parts(2, payload(2))).unwrap();
    ram.hold(0).unwrap();
    assert!(matches!(
        page.unload_process(&mut ram, 1),
        Err(MemoryError::ConcurrentAccessConflict)
    ));
    assert_eq!(page.occupancy(), 2);
    assert_eq!(page.offset_of(1), Some(0));
    assert_eq!(page.unload_process(&mut ram, 2).unwrap().instructions(), payload(2));
    assert!(matches!(page.render(&ram), Err(MemoryError::ConcurrentAccessConflict)));
    ram.release(0).unwrap();
    assert_eq!(page.unload_process(&mut ram, 1).unwrap().instructions(), payload(1));
}

#[test]
fn a_full_page_is_refused_before_a_held_byte() {
    let mut ram = Ram::new();
    let mut page = Page::new(0, &ram).unwrap();
    for pid in 0..8u16 {
        page.load_process(&mut ram, &Process::with_pid(pid)).unwrap();
    }
    ram.hold(PAGE_SIZE).unwrap();
    assert_eq!(page.load_process(&mut ram, &Process::with_pid(8)), Err(MemoryError::PageFull));
}

#[test]
fn two_pages_do_not_touch_each_other() {
    let mut ram = Ram::new();
    let mut low = Page::new(0, &ram).unwrap();
    let mut high = Page::new(PAGE_SIZE, &ram).unwrap();
    low.load_process(&mut ram, &Process::from_parts(1, payload(1))).unwrap();
    high.load_process(&mut ram, &Process::from_parts(1, payload(2))).unwrap();
    assert_eq!(low.unload_process(&mut ram, 1).unwrap().instructions(), payload(1));
    assert_eq!(high.unload_process(&mut ram, 1).unwrap().instructions(), payload(2));
}

#[test]
fn processes_with_a_pid() {
    let process = Process::with_pid(4242);
    assert_eq!(process.pid(), 4242);
    assert_eq!(process.instructions().len(), PROCESS_SIZE);
    for i in 0..PROCESS_SIZE {
        assert_eq!(process.instruction(i), process.instructions()[i]);
    }
    let copy = Process::from_parts(process.pid(), process.instructions());
    assert!(copy == process);
    assert!(Process::from_parts(1, [0; PROCESS_SIZE]) != Process::from_parts(2, [0; PROCESS_SIZE]));
    let mut other = [0u8; PROCESS_SIZE];
    other[31] = 1;
    assert!(Process::from_parts(1, [0; PROCESS_SIZE]) != Process::from_parts(1, other));
}

#[test]
fn random_processes_differ() {
    let drawn: Vec<Process> = (0..8).map(|_| Process::new()).collect();
    assert!(drawn.iter().any(|p| p.instructions() != drawn[0].instructions()));
    assert!(drawn.iter().any(|p| p.instructions() != [0u8; PROCESS_SIZE]));
}

#[test]
fn page_dump() {
    let mut ram = Ram::new();
    let mut page = Page::new(PAGE_SIZE, &ram).unwrap();
    let mut bytes = [0u8; PROCESS_SIZE];
    bytes[0] = 0x0a;
    bytes[1] = 0xff;
    bytes[16] = 0x10;
    bytes[31] = 0x9c;
    page.load_process(&mut ram, &Process::from_parts(1, bytes)).unwrap();
    let mut expected = String::from("- RAM Page");
    expected.push_str("\n0a ff 00 00 00 00 00 00 00 00 00 00 00 00 00 00 ");
    expected.push_str("\n10 00 00 00 00 00 00 00 00 00 00 00 00 00 00 9c ");
    for _ in 0..14 {
        expected.push_str("\n00 00 00 00 00 00 00 00 00 00 00 00 00 00 00 00 ");
    }
    assert_eq!(page.render(&ram).unwrap(), expected);
    let low = Page::new(0, &ram).unwrap();
    let text = low.render(&ram).unwrap();
    assert_eq!(text.len(), 10 + 16 * (1 + 16 * 3));
    assert!(text.chars().all(|c| "- RAMPage\n0".contains(c)));
}

#[test]
fn process_dump() {
    let mut bytes = [0u8; PROCESS_SIZE];
    for (i, byte) in bytes.iter_mut().enumerate() {
        *byte = (i * 8) as u8;
    }
    let mut expected = String::from("\n\tProcess PID 65535:");
    expected.push_str("\n00 08 10 18 20 28 30 38 40 48 50 58 60 68 70 78 ");
    expected.push_str("\n80 88 90 98 a0 a8 b0 b8 c0 c8 d0 d8 e0 e8 f0 f8 ");
    assert_eq!(Process::from_parts(65535, bytes).render(), expected);
    assert!(Process::from_parts(0, bytes).render().starts_with("\n\tProcess PID 0:\n00 "));
    assert!(Process::from_parts(10, bytes).render().starts_with("\n\tProcess PID 10:\n"));
    assert!(Process::from_parts(907, bytes).render().starts_with("\n\tProcess PID 907:\n"));
    for pid in [0u16, 9, 10, 99, 100, 1234, 40000, u16::MAX] {
        let text = Process::from_parts(pid, bytes).render();
        assert_eq!(text, format!("\n\tProcess PID {}:{}", pid, &expected[20..]));
    }
}

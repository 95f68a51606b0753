use hhutos::processes::process::{add_process, add_vma, get_app_name, remove_process, PidCounter, Process, ProcessTable};
use hhutos::processes::vma::{VmaType, VMA};
use hhutos::syscalls::{heap_vma, try_get_char_code};

#[test]
fn vma_type_names() {
    assert_eq!(VmaType::Code.name(), "Code");
    assert_eq!(VmaType::Heap.name(), "Heap");
    assert_eq!(VmaType::Stack.name(), "Stack");
}

#[test]
fn vma_overlap_cases() {
    let a = VMA::new(0x1000, 0x3000, VmaType::Code);
    let b = VMA::new(0x2000, 0x4000, VmaType::Heap);
    let c = VMA::new(0x3000, 0x5000, VmaType::Stack);
    let empty = VMA::new(0x2000, 0x2000, VmaType::Heap);
    assert!(a.overlaps(&b));
    assert!(b.overlaps(&a));
    assert!(!a.overlaps(&c));
    assert!(!c.overlaps(&a));
    assert!(!a.overlaps(&empty));
    assert!(a.overlaps(&a));
    assert!(!empty.overlaps(&empty));
}

#[test]
fn pids_count_up_from_one() {
    let mut pids = PidCounter::new();
    let p1 = Process::new(&mut pids, "shell");
    let p2 = Process::new(&mut pids, "pong");
    assert_eq!(p1.id, 1);
    assert_eq!(p2.id, 2);
    assert_eq!(p2.name, "pong");
    assert_eq!(pids.fetch_next(), 3);
}

#[test]
fn process_table_add_get_remove() {
    let mut pids = PidCounter::new();
    let mut table = ProcessTable::new();
    let p = Process::new(&mut pids, "hello_pid");
    let id = p.id;
    assert_eq!(get_app_name(&table, id), None);
    add_process(&mut table, p);
    assert_eq!(get_app_name(&table, id), Some(String::from("hello_pid")));
    add_process(&mut table, Process { id, name: String::from("again") });
    assert_eq!(get_app_name(&table, id), Some(String::from("again")));
    remove_process(&mut table, id);
    assert_eq!(get_app_name(&table, id), None);
}

#[test]
fn add_vma_finds_no_process() {
    let mut table = ProcessTable::new();
    add_process(&mut table, Process { id: 1, name: String::from("a") });
    let r = add_vma(&mut table, 1, VMA::new(0, 0x1000, VmaType::Heap));
    assert_eq!(r, Err("Process not found"));
    assert_eq!(get_app_name(&table, 1), Some(String::from("a")));
}

#[test]
fn heap_vma_rounds_the_end_up() {
    let v = heap_vma(0x1000, 100);
    assert_eq!(v, VMA::new(0x1000, 0x2000, VmaType::Heap));
    let w = heap_vma(0x1000, 0x1000);
    assert_eq!(w.end, 0x2000);
    let x = heap_vma(0x1800, 0x1000);
    assert_eq!(x.end, 0x3000);
}

#[test]
fn key_codes() {
    assert_eq!(try_get_char_code(Some('a')), 97);
    assert_eq!(try_get_char_code(None), 0);
}

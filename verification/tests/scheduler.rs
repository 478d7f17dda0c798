use proc_core::task::manager::{ReadyTask, TaskManager};

fn strides(m: &TaskManager) -> Vec<usize> {
    (0..m.len()).map(|i| m.get(i).stride).collect()
}

fn pids(m: &TaskManager) -> Vec<usize> {
    (0..m.len()).map(|i| m.get(i).pid).collect()
}

#[test]
fn new_manager_is_empty() {
    let mut m = TaskManager::new();
    assert_eq!(m.len(), 0);
    assert_eq!(m.fetch(), None);
}

#[test]
fn add_keeps_queue_sorted_by_stride() {
    let mut m = TaskManager::new();
    for (pid, stride) in [(0, 50), (1, 10), (2, 30), (3, 70), (4, 0), (5, 30)] {
        m.add(ReadyTask { pid, stride });
        let s = strides(&m);
        let mut sorted = s.clone();
        sorted.sort();
        assert_eq!(s, sorted);
    }
    assert_eq!(strides(&m), vec![0, 10, 30, 30, 50, 70]);
    assert_eq!(pids(&m), vec![4, 1, 2, 5, 0, 3]);
}

#[test]
fn add_goes_before_first_greater_stride() {
    let mut m = TaskManager::new();
    m.add(ReadyTask { pid: 1, stride: 5 });
    m.add(ReadyTask { pid: 2, stride: 9 });
    m.add(ReadyTask { pid: 3, stride: 7 });
    assert_eq!(pids(&m), vec![1, 3, 2]);
    m.add(ReadyTask { pid: 4, stride: 9 });
    assert_eq!(pids(&m), vec![1, 3, 2, 4]);
    m.add(ReadyTask { pid: 5, stride: 100 });
    assert_eq!(pids(&m), vec![1, 3, 2, 4, 5]);
    m.add(ReadyTask { pid: 6, stride: 0 });
    assert_eq!(pids(&m), vec![6, 1, 3, 2, 4, 5]);
}

#[test]
fn equal_strides_leave_in_order_of_arrival() {
    let mut m = TaskManager::new();
    for pid in 0..5 {
        m.add(ReadyTask { pid, stride: 42 });
    }
    for pid in 0..5 {
        assert_eq!(m.fetch(), Some(ReadyTask { pid, stride: 42 }));
    }
    assert_eq!(m.fetch(), None);
}

#[test]
fn fetch_returns_least_stride() {
    let mut m = TaskManager::new();
    let input = [9usize, 3, 7, 1, 8, 2, 6];
    for (pid, stride) in input.iter().enumerate() {
        m.add(ReadyTask { pid, stride: *stride });
    }
    let mut left: Vec<usize> = input.to_vec();
    while let Some(t) = m.fetch() {
        let min = *left.iter().min().unwrap();
        assert_eq!(t.stride, min);
        let at = left.iter().position(|s| *s == min).unwrap();
        left.remove(at);
    }
    assert!(left.is_empty());
}

#[test]
fn fetch_takes_front_and_keeps_rest() {
    let mut m = TaskManager::new();
    m.add(ReadyTask { pid: 7, stride: 2 });
    m.add(ReadyTask { pid: 8, stride: 1 });
    assert_eq!(m.fetch(), Some(ReadyTask { pid: 8, stride: 1 }));
    assert_eq!(m.len(), 1);
    assert_eq!(m.get(0), ReadyTask { pid: 7, stride: 2 });
}

#[test]
fn largest_stride_goes_last() {
    let mut m = TaskManager::new();
    m.add(ReadyTask { pid: 1, stride: usize::MAX });
    m.add(ReadyTask { pid: 2, stride: 0 });
    m.add(ReadyTask { pid: 3, stride: usize::MAX });
    assert_eq!(pids(&m), vec![2, 1, 3]);
}

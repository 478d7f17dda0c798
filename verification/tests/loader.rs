use proc_core::loader::{bytes_eq, Loader};

#[test]
fn bytes_eq_compares_contents() {
    assert!(bytes_eq(&vec![], &vec![]));
    assert!(bytes_eq(&vec![1, 2, 3], &vec![1, 2, 3]));
    assert!(!bytes_eq(&vec![1, 2, 3], &vec![1, 2, 4]));
    assert!(!bytes_eq(&vec![1, 2, 3], &vec![1, 2]));
    assert!(!bytes_eq(&vec![], &vec![0]));
}

#[test]
fn empty_loader_finds_nothing() {
    let loader = Loader::new();
    assert_eq!(loader.len(), 0);
    assert_eq!(loader.get_app_data_by_name(&b"init".to_vec()), None);
}

#[test]
fn loader_finds_program_by_name() {
    let mut loader = Loader::new();
    loader.add(b"init".to_vec(), vec![1]);
    loader.add(b"shell".to_vec(), vec![2, 2]);
    assert_eq!(loader.len(), 2);
    assert_eq!(loader.get_app_data_by_name(&b"init".to_vec()), Some(&vec![1]));
    assert_eq!(loader.get_app_data_by_name(&b"shell".to_vec()), Some(&vec![2, 2]));
    assert_eq!(loader.get_app_data_by_name(&b"shel".to_vec()), None);
    assert_eq!(loader.get_app_data_by_name(&b"".to_vec()), None);
}

#[test]
fn first_program_of_a_name_is_found() {
    let mut loader = Loader::new();
    loader.add(b"a".to_vec(), vec![1]);
    loader.add(b"a".to_vec(), vec![2]);
    assert_eq!(loader.get_app_data_by_name(&b"a".to_vec()), Some(&vec![1]));
}

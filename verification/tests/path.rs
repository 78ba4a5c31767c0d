use quic_header::path::Path;
use socket2::SockAddr;
use std::collections::HashSet;

fn addr(text: &str) -> SockAddr {
    SockAddr::unix(text).unwrap()
}

#[test]
fn paths_are_equal_when_both_ends_are() {
    let a = Path { local: addr("/run/quic/local"), remote: addr("/run/quic/peer") };
    let b = Path { local: addr("/run/quic/local"), remote: addr("/run/quic/peer") };
    let moved = Path { local: addr("/run/quic/local"), remote: addr("/run/quic/other") };
    let swapped = Path { local: addr("/run/quic/peer"), remote: addr("/run/quic/local") };
    assert_eq!(a, b);
    assert_ne!(a, moved);
    assert_ne!(a, swapped);
}

#[test]
fn clone_of_a_path_is_the_path() {
    let a = Path { local: addr("/run/quic/local"), remote: addr("/run/quic/peer") };
    let b = a.clone();
    assert_eq!(a, b);
    assert_eq!(b.local, addr("/run/quic/local"));
    assert_eq!(b.remote, addr("/run/quic/peer"));
    assert_ne!(b.local, b.remote);
}

#[test]
fn path_is_a_key() {
    let mut seen = HashSet::new();
    assert!(seen.insert(Path { local: addr("/run/quic/a"), remote: addr("/run/quic/b") }));
    assert!(!seen.insert(Path { local: addr("/run/quic/a"), remote: addr("/run/quic/b") }));
    assert!(seen.insert(Path { local: addr("/run/quic/a"), remote: addr("/run/quic/c") }));
    assert_eq!(seen.len(), 2);
}

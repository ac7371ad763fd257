use foreman::ports::{PortManager, PortManagerError};

#[test]
fn reserves_smallest_port_first() {
    let mut pm = PortManager::new(Some(10), Some(20)).unwrap();
    assert_eq!(pm.reserve_port(), Ok(10));
    assert_eq!(pm.reserve_port(), Ok(11));
    assert_eq!(pm.reserve_port(), Ok(12));
}

#[test]
fn defaults_cover_the_dynamic_range() {
    let mut pm = PortManager::new(None, None).unwrap();
    assert_eq!(pm.reserve_port(), Ok(49152));
}

#[test]
fn inverted_range_is_refused() {
    match PortManager::new(Some(20), Some(10)) {
        Err(PortManagerError::InvalidPortRange) => {},
        _ => panic!("expected InvalidPortRange"),
    }
}

#[test]
fn exhaustion_then_release_allows_exactly_one_more() {
    let mut pm = PortManager::new(Some(100), Some(102)).unwrap();
    assert_eq!(pm.reserve_port(), Ok(100));
    assert_eq!(pm.reserve_port(), Ok(101));
    assert_eq!(pm.reserve_port(), Ok(102));
    assert_eq!(pm.reserve_port(), Err(PortManagerError::OutOfPorts));
    assert_eq!(pm.release_port(101), Ok(()));
    assert_eq!(pm.reserve_port(), Ok(101));
    assert_eq!(pm.reserve_port(), Err(PortManagerError::OutOfPorts));
}

#[test]
fn releasing_an_unreserved_port_changes_nothing() {
    let mut pm = PortManager::new(Some(100), Some(102)).unwrap();
    assert_eq!(pm.reserve_port(), Ok(100));
    assert_eq!(
        pm.release_port(101),
        Err(PortManagerError::CanNotReleaseUnreservedPort(101))
    );
    // The failed release reserved or released nothing.
    assert_eq!(pm.reserve_port(), Ok(101));
}

#[test]
fn single_port_range_works() {
    let mut pm = PortManager::new(Some(7), Some(7)).unwrap();
    assert_eq!(pm.reserve_port(), Ok(7));
    assert_eq!(pm.reserve_port(), Err(PortManagerError::OutOfPorts));
    assert_eq!(pm.release_port(7), Ok(()));
    assert_eq!(pm.reserve_port(), Ok(7));
}

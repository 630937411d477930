use host_socket::epoll::{EpollCtl, EpollEvent, EpollFile, EDGE_TRIGGER};
use host_socket::errno::{Errno, EBADF, EEXIST, ENOENT};
use host_socket::events::{Events, IN, OUT};

fn watch(mask: u32, data: u64) -> EpollEvent {
    EpollEvent { events: Events::from_bits(mask), data }
}

#[test]
fn level_triggered_reports_until_drained() {
    let mut ep = EpollFile::new();
    let mut files = vec![Events::empty(); 8];
    assert_eq!(ep.control(&EpollCtl::Add(5, watch(IN, 55), 0), Some(files[5])), Ok(()));
    assert!(ep.pop_ready(16, &files).is_empty());
    files[5] = Events::from_bits(IN);
    ep.on_events(5);
    assert_eq!(ep.poll_by(Events::from_bits(IN), None).bits(), IN);
    let first = ep.pop_ready(16, &files);
    assert_eq!(first, vec![EpollEvent { events: Events::from_bits(IN), data: 55 }]);
    let second = ep.pop_ready(16, &files);
    assert_eq!(second.len(), 1);
    files[5] = Events::empty();
    assert!(ep.pop_ready(16, &files).is_empty());
    assert!(ep.poll_by(Events::from_bits(IN), None).is_empty());
}

#[test]
fn edge_triggered_reports_once() {
    let mut ep = EpollFile::new();
    let files = vec![Events::from_bits(OUT); 4];
    ep.control(&EpollCtl::Add(2, watch(OUT, 1), EDGE_TRIGGER), Some(files[2])).unwrap();
    assert_eq!(ep.pop_ready(4, &files).len(), 1);
    assert!(ep.pop_ready(4, &files).is_empty());
    ep.on_events(2);
    assert_eq!(ep.pop_ready(4, &files).len(), 1);
}

#[test]
fn control_errors() {
    let mut ep = EpollFile::new();
    assert_eq!(ep.control(&EpollCtl::Add(1, watch(IN, 0), 0), None), Err(Errno::new(EBADF)));
    ep.control(&EpollCtl::Add(1, watch(IN, 0), 0), Some(Events::empty())).unwrap();
    assert_eq!(ep.control(&EpollCtl::Add(1, watch(IN, 0), 0), Some(Events::empty())), Err(Errno::new(EEXIST)));
    assert_eq!(ep.control(&EpollCtl::Del(2), None), Err(Errno::new(ENOENT)));
    assert_eq!(ep.control(&EpollCtl::Mod(2, watch(IN, 0), 0), None), Err(Errno::new(ENOENT)));
    assert_eq!(ep.control(&EpollCtl::Del(1), None), Ok(()));
    assert_eq!(ep.control(&EpollCtl::Del(1), None), Err(Errno::new(ENOENT)));
    assert_eq!(ep.control(&EpollCtl::Add(1, watch(IN, 0), 0), Some(Events::empty())), Ok(()));
}

#[test]
fn deleted_entry_is_dropped_from_the_queue() {
    let mut ep = EpollFile::new();
    let files = vec![Events::from_bits(IN); 4];
    ep.control(&EpollCtl::Add(3, watch(IN, 9), 0), Some(files[3])).unwrap();
    ep.control(&EpollCtl::Del(3), None).unwrap();
    assert!(ep.pop_ready(8, &files).is_empty());
    assert!(ep.poll_by(Events::from_bits(IN), None).is_empty());
}

#[test]
fn modify_changes_mask_and_probes() {
    let mut ep = EpollFile::new();
    let files = vec![Events::from_bits(OUT); 4];
    ep.control(&EpollCtl::Add(1, watch(IN, 4), 0), Some(files[1])).unwrap();
    assert!(ep.pop_ready(8, &files).is_empty());
    ep.control(&EpollCtl::Mod(1, watch(OUT, 6), 0), Some(files[1])).unwrap();
    assert_eq!(ep.pop_ready(8, &files), vec![EpollEvent { events: Events::from_bits(OUT), data: 6 }]);
}

#[test]
fn max_events_limits_one_pass() {
    let mut ep = EpollFile::new();
    let files = vec![Events::from_bits(IN); 4];
    for fd in 0..3u32 {
        ep.control(&EpollCtl::Add(fd, watch(IN, fd as u64), 0), Some(files[fd as usize])).unwrap();
    }
    let got = ep.pop_ready(2, &files);
    assert_eq!(got.iter().map(|e| e.data).collect::<Vec<u64>>(), vec![0u64, 1u64]);
    let next = ep.pop_ready(2, &files);
    assert_eq!(next.iter().map(|e| e.data).collect::<Vec<u64>>(), vec![2u64, 0u64]);
}

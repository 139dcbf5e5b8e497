use bladedance::socketengine_poll::{PollEngine, PollFd, MAX_POLL_FDS};
use bladedance::socketengine_select::{select_event_bits, SelectEngine, FD_SETSIZE};
use bladedance::socketengine::{
    kqueue_write_changes, mask_to_epoll, mask_to_poll, select_set_changes, IoCounters,
    FD_WANT_EDGE_WRITE, FD_WANT_FAST_READ, FD_WANT_FAST_WRITE, FD_WANT_POLL_READ, FD_WANT_POLL_WRITE,
};

const EPOLLIN: u32 = 0x1;
const EPOLLOUT: u32 = 0x4;
const EPOLLET: u32 = 0x8000_0000;

#[test]
fn epoll_bits_follow_the_mask() {
    assert_eq!(mask_to_epoll(FD_WANT_POLL_READ, EPOLLIN, EPOLLOUT, EPOLLET), EPOLLIN);
    assert_eq!(
        mask_to_epoll(FD_WANT_POLL_READ | FD_WANT_FAST_WRITE, EPOLLIN, EPOLLOUT, EPOLLET),
        EPOLLIN | EPOLLOUT
    );
    assert_eq!(
        mask_to_epoll(FD_WANT_FAST_READ | FD_WANT_EDGE_WRITE, EPOLLIN, EPOLLOUT, EPOLLET),
        EPOLLET | EPOLLIN | EPOLLOUT
    );
}

#[test]
fn poll_bits_follow_the_mask() {
    assert_eq!(mask_to_poll(FD_WANT_POLL_WRITE, 1, 4), 4);
    assert_eq!(mask_to_poll(FD_WANT_FAST_READ | FD_WANT_POLL_WRITE, 1, 4), 5);
    assert_eq!(mask_to_poll(FD_WANT_EDGE_WRITE, 1, 4), 0);
}

#[test]
fn mask_changes() {
    assert_eq!(select_set_changes(0, FD_WANT_POLL_READ), (Some(true), None));
    assert_eq!(select_set_changes(FD_WANT_POLL_WRITE, 0), (None, Some(false)));
    assert_eq!(kqueue_write_changes(0, FD_WANT_POLL_WRITE), (Some(true), false));
    assert_eq!(kqueue_write_changes(FD_WANT_POLL_WRITE, FD_WANT_FAST_WRITE), (Some(false), true));
}

#[test]
fn counters_count_events() {
    let mut c = IoCounters::new();
    c.update_read(5);
    c.update_read(-1);
    c.update_read(0);
    c.update_write(7);
    assert_eq!(c.read_events, 3);
    assert_eq!(c.indata, 5);
    assert_eq!(c.error_events, 1);
    assert_eq!(c.write_events, 1);
    assert_eq!(c.outdata, 7);
}

#[test]
fn poll_engine_add_mod_del() {
    let mut e = PollEngine::new();
    assert!(e.add_fd(5, 1));
    assert!(e.add_fd(7, 4));
    assert!(e.add_fd(9, 5));
    assert!(!e.add_fd(7, 1));
    assert!(!e.add_fd(-1, 1));
    assert!(!e.add_fd(MAX_POLL_FDS as i32, 1));
    assert_eq!(e.get_fd_count(), 3);
    assert!(e.mod_fd(7, 1));
    assert_eq!(e.get_pollfd(1), Some(PollFd { fd: 7, events: 1, revents: 0 }));
    assert!(!e.mod_fd(8, 1));
    assert!(e.del_fd(5));
    assert_eq!(e.get_fd_count(), 2);
    assert_eq!(e.get_pollfd(0), Some(PollFd { fd: 9, events: 5, revents: 0 }));
    assert_eq!(e.get_pollfd(1), Some(PollFd { fd: 7, events: 1, revents: 0 }));
    assert_eq!(e.get_pollfd(2), None);
    assert!(!e.del_fd(5));
    assert!(e.del_fd(7));
    assert!(e.add_fd(5, 1));
    assert_eq!(e.get_pollfd(1), Some(PollFd { fd: 5, events: 1, revents: 0 }));
    e.set_revents(1, 4);
    assert_eq!(e.get_pollfd(1).unwrap().revents, 4);
}

#[test]
fn select_engine_sets() {
    let mut e = SelectEngine::new();
    assert!(e.add_fd(3, FD_WANT_POLL_READ));
    assert_eq!(e.in_sets(3), (true, false, true));
    assert!(e.add_fd(10, FD_WANT_FAST_WRITE));
    assert_eq!(e.in_sets(10), (false, true, true));
    assert_eq!(e.get_max_fd(), 10);
    assert!(e.mod_fd(3, FD_WANT_POLL_READ, FD_WANT_POLL_WRITE));
    assert_eq!(e.in_sets(3), (false, true, true));
    assert!(e.del_fd(10));
    assert_eq!(e.in_sets(10), (false, false, false));
    assert_eq!(e.get_max_fd(), 9);
    assert!(!e.add_fd(FD_SETSIZE as i32, FD_WANT_POLL_READ));
    assert!(!e.del_fd(-2));
    assert_eq!(select_event_bits(3, true, false, true), 5);
    assert_eq!(select_event_bits(-1, true, true, true), 0);
}

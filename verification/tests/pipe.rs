use wasi_vfs::errors::Errno;
use wasi_vfs::pipe::join_chunks;
use wasi_vfs::pipe::Received;
use wasi_vfs::pipe::RecvStep;
use wasi_vfs::pipe::RecvTimer;
use wasi_vfs::pipe::WasiBidirectionalPipePair;

#[test]
fn write_then_read_gives_the_bytes_back() {
    let mut pair = WasiBidirectionalPipePair::new();
    assert_eq!(pair.write(b"hello"), Ok(5));
    let mut buf = vec![0u8; 5];
    assert_eq!(pair.read(&mut buf), 5);
    assert_eq!(buf, b"hello".to_vec());
}

#[test]
fn bytes_arrive_in_the_order_in_which_they_were_written() {
    let mut pair = WasiBidirectionalPipePair::new();
    pair.write(b"ab").unwrap();
    pair.write(b"cde").unwrap();
    pair.write(b"f").unwrap();
    let mut first = vec![0u8; 4];
    let mut second = vec![0u8; 2];
    assert_eq!(pair.read(&mut first), 4);
    assert_eq!(pair.read(&mut second), 2);
    let mut all = first.clone();
    all.extend_from_slice(&second);
    assert_eq!(all, b"abcdef".to_vec());
}

#[test]
fn a_short_buffer_takes_what_it_can_and_the_rest_waits() {
    let mut pair = WasiBidirectionalPipePair::new();
    pair.write(b"abcdef").unwrap();
    let mut buf = vec![0u8; 4];
    assert_eq!(pair.read(&mut buf), 4);
    assert_eq!(buf, b"abcd".to_vec());
    assert_eq!(pair.bytes_available_read(), Some(2));
    let mut wide = vec![b'-'; 4];
    assert_eq!(pair.read(&mut wide), 2);
    assert_eq!(wide, b"ef--".to_vec());
    assert_eq!(pair.bytes_available_read(), Some(0));
}

#[test]
fn bytes_available_takes_the_next_chunk_in() {
    let mut pair = WasiBidirectionalPipePair::new();
    assert_eq!(pair.bytes_available_read(), Some(0));
    pair.write(b"abc").unwrap();
    assert_eq!(pair.bytes_available_read(), Some(3));
    assert_eq!(pair.recv.bytes_available(), 3);
    assert_eq!(pair.recv.bytes_available_write(), None);
}

#[test]
fn a_read_that_does_not_block_returns_nothing() {
    let mut pair = WasiBidirectionalPipePair::new().with_blocking(false);
    let mut buf = vec![7u8; 3];
    assert_eq!(pair.read(&mut buf), 0);
    assert_eq!(buf, vec![7u8; 3]);
    pair.set_blocking(true);
    pair.write(b"x").unwrap();
    assert_eq!(pair.read(&mut buf), 1);
    assert_eq!(buf, vec![b'x', 7, 7]);
}

#[test]
fn a_closed_endpoint_reads_nothing_and_cannot_send() {
    let mut pair = WasiBidirectionalPipePair::new();
    pair.write(b"lost").unwrap();
    pair.recv.close();
    let mut buf = vec![0u8; 4];
    assert_eq!(pair.read(&mut buf), 0);
    assert_eq!(pair.write(b"more"), Err(Errno::Io));
    pair.send.close();
    assert_eq!(pair.send.send(b"x"), Err(Errno::Io));
}

#[test]
fn a_closed_endpoint_drops_its_buffer() {
    let mut pair = WasiBidirectionalPipePair::new();
    pair.write(b"abcdef").unwrap();
    let mut buf = vec![0u8; 2];
    assert_eq!(pair.read(&mut buf), 2);
    pair.recv.close();
    assert_eq!(pair.recv.bytes_available(), 0);
    assert_eq!(pair.read(&mut buf), 0);
}

#[test]
fn reading_after_the_other_side_is_gone() {
    let WasiBidirectionalPipePair { send, mut recv } = WasiBidirectionalPipePair::new();
    let mut send = send;
    send.write(b"bye").unwrap();
    drop(send);
    let mut buf = vec![0u8; 8];
    assert_eq!(recv.read(&mut buf), 3);
    assert_eq!(&buf[..3], b"bye");
    assert_eq!(recv.read(&mut buf), 0);
}

#[test]
fn a_pipe_has_no_size_times_or_positions() {
    let mut pair = WasiBidirectionalPipePair::new();
    assert_eq!(pair.size(), 0);
    assert_eq!(pair.last_accessed(), 0);
    assert_eq!(pair.last_modified(), 0);
    assert_eq!(pair.created_time(), 0);
    assert_eq!(pair.seek(17), 0);
    assert_eq!(pair.set_len(9), Ok(()));
    assert_eq!(pair.unlink(), Ok(()));
    assert_eq!(pair.flush(), Ok(()));
    assert_eq!(pair.recv.sync_to_disk(), Ok(()));
    assert!(pair.recv.is_open());
    assert_eq!(pair.recv.get_special_fd(), None);
    assert_eq!(pair.recv.get_fd(), None);
    assert_eq!(pair.recv.seek(3), 0);
}

#[test]
fn timed_receive_waits_longer_and_longer() {
    let mut pair = WasiBidirectionalPipePair::new();
    let mut buf = vec![0u8; 4];
    let mut timer = RecvTimer { elapsed_ms: 0, tick_wait: 0 };
    assert_eq!(pair.recv.recv_on(Received::Empty, &mut buf, &mut timer, 10), RecvStep::Park(0));
    assert_eq!(timer, RecvTimer { elapsed_ms: 0, tick_wait: 1 });
    timer.tick_wait = 9;
    assert_eq!(pair.recv.recv_on(Received::Empty, &mut buf, &mut timer, 10), RecvStep::Park(1));
    assert_eq!(timer, RecvTimer { elapsed_ms: 1, tick_wait: 10 });
    timer.tick_wait = 250;
    assert_eq!(pair.recv.recv_on(Received::Empty, &mut buf, &mut timer, 10), RecvStep::Park(20));
    assert_eq!(timer, RecvTimer { elapsed_ms: 21, tick_wait: 251 });
    assert_eq!(
        pair.recv.recv_on(Received::Empty, &mut buf, &mut timer, 10),
        RecvStep::Done(Err(Errno::Timedout))
    );
    assert_eq!(timer, RecvTimer { elapsed_ms: 21, tick_wait: 251 });
    let mut late = RecvTimer { elapsed_ms: 10, tick_wait: 0 };
    assert_eq!(pair.recv.recv_on(Received::Empty, &mut buf, &mut late, 10), RecvStep::Park(0));
}

#[test]
fn timed_receive_hands_out_what_came() {
    let mut pair = WasiBidirectionalPipePair::new();
    let mut buf = vec![0u8; 2];
    let mut timer = RecvTimer { elapsed_ms: 5, tick_wait: 3 };
    assert_eq!(
        pair.recv.recv_on(Received::Data(b"xyz".to_vec()), &mut buf, &mut timer, 1),
        RecvStep::Done(Ok(2))
    );
    assert_eq!(buf, b"xy".to_vec());
    assert_eq!(timer, RecvTimer { elapsed_ms: 5, tick_wait: 3 });
    assert_eq!(pair.recv.recv_step(&mut buf, &mut timer, 1), RecvStep::Done(Ok(1)));
    assert_eq!(buf, b"zy".to_vec());
    assert_eq!(pair.recv.recv_on(Received::Data(Vec::new()), &mut buf, &mut timer, 1), RecvStep::Retry);
    assert_eq!(
        pair.recv.recv_on(Received::Disconnected, &mut buf, &mut timer, 1),
        RecvStep::Done(Ok(0))
    );
}

#[test]
fn timed_receive_step_looks_into_the_channel() {
    let mut pair = WasiBidirectionalPipePair::new();
    let mut buf = vec![0u8; 8];
    let mut timer = RecvTimer { elapsed_ms: 0, tick_wait: 0 };
    assert_eq!(pair.recv.recv_step(&mut buf, &mut timer, 0), RecvStep::Park(0));
    pair.send.send(b"data").unwrap();
    assert_eq!(pair.recv.recv_step(&mut buf, &mut timer, 0), RecvStep::Done(Ok(4)));
    assert_eq!(&buf[..4], b"data");
    timer.elapsed_ms = 1;
    assert_eq!(pair.recv.recv_step(&mut buf, &mut timer, 0), RecvStep::Done(Err(Errno::Timedout)));
}

#[test]
fn drain_and_read_received_work_on_the_buffer() {
    let mut pair = WasiBidirectionalPipePair::new();
    let mut buf = vec![0u8; 3];
    assert_eq!(pair.recv.drain(&mut buf), 0);
    assert_eq!(pair.recv.read_received(Some(b"abcde".to_vec()), &mut buf), 3);
    assert_eq!(buf, b"abc".to_vec());
    assert_eq!(pair.recv.drain(&mut buf), 2);
    assert_eq!(buf, b"dec".to_vec());
    assert_eq!(pair.recv.read_received(None, &mut buf), 0);
    assert_eq!(pair.recv.read_received(Some(Vec::new()), &mut buf), 0);
    assert_eq!(buf, b"dec".to_vec());
}

#[test]
fn chunks_are_joined_in_their_order() {
    assert_eq!(join_chunks(vec![b"ab".to_vec(), Vec::new(), b"c".to_vec()]), b"abc".to_vec());
    assert_eq!(join_chunks(Vec::new()), Vec::<u8>::new());
}

#[test]
fn an_endpoint_that_was_cut_off_stays_cut_off() {
    let WasiBidirectionalPipePair { send, recv } = WasiBidirectionalPipePair::new();
    let mut send = send;
    let mut recv = recv;
    send.write(b"waiting").unwrap();
    send.close();
    assert_eq!(send.write(b"x"), Err(Errno::Io));
    assert_eq!(send.send(b""), Err(Errno::Io));
    let mut buf = vec![9u8; 3];
    assert_eq!(send.read(&mut buf), 0);
    assert_eq!(buf, vec![9u8; 3]);
    assert_eq!(send.bytes_available_read(), Some(0));
    let mut timer = RecvTimer { elapsed_ms: 0, tick_wait: 0 };
    assert_eq!(send.recv_step(&mut buf, &mut timer, 5), RecvStep::Done(Ok(0)));
    assert_eq!(timer, RecvTimer { elapsed_ms: 0, tick_wait: 0 });
    // what was sent before is still read on the other side
    let mut wide = vec![0u8; 7];
    assert_eq!(recv.read(&mut wide), 7);
    assert_eq!(wide, b"waiting".to_vec());
    // and the other side cannot send to it
    assert_eq!(recv.write(b"back"), Err(Errno::Io));
}

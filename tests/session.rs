use esp_at_nal::commands::{
    AccessPointConnectCommand, AtError, AutoConnectCommand, CloseSocketCommand, ObtainLocalAddressCommand,
    ReceiveDataCommand, RestartCommand, SetMultipleConnectionsCommand, SetSocketReceivingModeCommand,
    TransmissionCommand, TransmissionPrepareCommand, WifiModeCommand,
};
use esp_at_nal::net::{Ipv4Addr, Ipv6Addr, SocketAddr, SocketAddrV4, SocketAddrV6};
use esp_at_nal::stack::{chunk_length, Buffer, ConnectionState, Error, SendPoll, Socket};
use esp_at_nal::urc::URCMessages;
use esp_at_nal::wifi::{CommandError, JoinError, Session, TimerStatus};

/// Splits a byte stream into frames and applies each decoded event.
fn feed(session: &mut Session, mut bytes: &[u8]) {
    while !bytes.is_empty() {
        match URCMessages::<16>::parse_frame(bytes) {
            Ok((frame, consumed)) => {
                if let Some(message) = URCMessages::<16>::parse(&frame) {
                    session.handle_urc(message);
                }
                bytes = &bytes[consumed..];
            }
            Err(_) => break,
        }
    }
}

fn socket(session: &mut Session) -> Result<Socket, Error> {
    let command = if session.needs_multiple_connections() { Some(Ok(())) } else { None };
    session.socket_step(command)
}

fn connected_session() -> (Session, Socket) {
    let mut session = Session::new();
    let socket = socket(&mut session).unwrap();
    session.check_not_connected(&socket).unwrap();
    session.passive_mode_result(Ok(())).unwrap();
    let _ = session.prepare_connect(&socket, SocketAddr::V4(SocketAddrV4::new(Ipv4Addr::new(127, 0, 0, 1), 5000)));
    feed(&mut session, b"0,CONNECT\r\n");
    session.finish_connect(&socket, Ok(())).unwrap();
    (session, socket)
}

#[test]
fn scenario_join_and_fetch_address() {
    assert_eq!(b"AT+CWMODE=1\r\n".to_vec(), WifiModeCommand::station_mode().encode());
    let command = AccessPointConnectCommand::new("test_wifi", "secret").unwrap();
    assert_eq!(b"AT+CWJAP=\"test_wifi\",\"secret\"\r\n".to_vec(), command.encode());
    assert_eq!(20000, command.timeout_ms());
    let mut session = Session::new();
    feed(&mut session, b"WIFI CONNECTED\r\nWIFI GOT IP\r\n");
    let state = session.join_state();
    assert!(state.connected);
    assert!(state.ip_assigned);
    assert_eq!(b"AT+CIFSR\r\n".to_vec(), ObtainLocalAddressCommand::new().encode());
}

#[test]
fn scenario_connect_ipv4() {
    let mut session = Session::new();
    assert!(session.needs_multiple_connections());
    assert_eq!(b"AT+CIPMUX=1\r\n".to_vec(), SetMultipleConnectionsCommand::multiple().encode());
    let socket = session.socket_step(Some(Ok(()))).unwrap();
    assert_eq!(0, socket.link_id());
    session.check_not_connected(&socket).unwrap();
    assert!(session.needs_passive_mode());
    assert_eq!(b"AT+CIPRECVMODE=1\r\n".to_vec(), SetSocketReceivingModeCommand::passive_mode().encode());
    session.passive_mode_result(Ok(())).unwrap();
    let remote = SocketAddr::V4(SocketAddrV4::new(Ipv4Addr::new(127, 0, 0, 1), 5000));
    let command = session.prepare_connect(&socket, remote);
    assert_eq!(b"AT+CIPSTART=0,\"TCP\",\"127.0.0.1\",5000\r\n".to_vec(), command.encode());
    feed(&mut session, b"0,CONNECT\r\n");
    session.finish_connect(&socket, Ok(())).unwrap();
    assert!(session.is_socket_connected(&socket));
    assert!(!session.needs_passive_mode());
}

#[test]
fn scenario_connect_ipv6_command() {
    let mut session = Session::new();
    let socket = socket(&mut session).unwrap();
    let ip = Ipv6Addr::new(0x2a02, 0x810d, 0x1340, 0x2df5, 0, 0x704d, 0x4a72, 0x1);
    let command = session.prepare_connect(&socket, SocketAddr::V6(SocketAddrV6::new(ip, 8080)));
    assert_eq!(
        b"AT+CIPSTART=0,\"TCPv6\",\"2a02:810d:1340:2df5:0:704d:4a72:0001\",8080\r\n".to_vec(),
        command.encode()
    );
}

#[test]
fn scenario_send_nine_bytes() {
    let (mut session, socket) = connected_session();
    session.assert_socket_connected(&socket).unwrap();
    let data = b"test data";
    assert_eq!(9, chunk_length(data.len(), 256));
    let prepare = session.prepare_chunk(&socket, data.len(), 256);
    assert_eq!(b"AT+CIPSEND=0,9\r\n".to_vec(), prepare.encode());
    let payload = TransmissionCommand::<256>::new(data);
    assert_eq!(data.to_vec(), payload.encode());
    assert!(!payload.expects_response_code());
    assert_eq!(SendPoll::Waiting, session.send_poll(9, TimerStatus::Pending));
    feed(&mut session, b"Recv 9 bytes\r\nSEND OK\r\n");
    assert_eq!(SendPoll::Confirmed, session.send_poll(9, TimerStatus::Pending));
}

#[test]
fn scenario_send_byte_count_mismatch() {
    let (mut session, _socket) = connected_session();
    session.begin_chunk();
    feed(&mut session, b"Recv 4 bytes\r\nSEND OK\r\n");
    assert_eq!(SendPoll::Failed(Error::PartialSend, false), session.send_poll(9, TimerStatus::Pending));
}

#[test]
fn send_fail_timeout_and_timer_error() {
    let (mut session, _socket) = connected_session();
    session.begin_chunk();
    assert_eq!(
        SendPoll::Failed(Error::SendFailed(AtError::Timeout), true),
        session.send_poll(9, TimerStatus::Expired)
    );
    assert_eq!(SendPoll::Failed(Error::TimerError, false), session.send_poll(9, TimerStatus::Failed));
    feed(&mut session, b"SEND FAIL\r\n");
    assert_eq!(
        SendPoll::Failed(Error::SendFailed(AtError::Error), true),
        session.send_poll(9, TimerStatus::Pending)
    );
}

#[test]
fn send_confirmation_clears_between_chunks() {
    let (mut session, _socket) = connected_session();
    session.begin_chunk();
    feed(&mut session, b"Recv 4 bytes\r\nSEND OK\r\n");
    session.begin_chunk();
    assert_eq!(None, session.send_confirmed);
    assert_eq!(None, session.recv_byte_count);
    feed(&mut session, b"SEND OK\r\n");
    assert_eq!(SendPoll::Confirmed, session.send_poll(5, TimerStatus::Pending));
}

#[test]
fn send_on_unconnected_or_closing_socket() {
    let mut session = Session::new();
    let socket = socket(&mut session).unwrap();
    assert_eq!(Err(Error::SocketUnconnected), session.assert_socket_connected(&socket));
    let (mut session, socket) = connected_session();
    feed(&mut session, b"0,CLOSED\r\n");
    assert_eq!(Err(Error::ClosingSocket), session.assert_socket_connected(&socket));
}

#[test]
fn scenario_receive_five_bytes() {
    let (mut session, socket) = connected_session();
    feed(&mut session, b"+IPD,0,5\r\n");
    assert!(session.is_data_available(&socket));
    let mut inner = [0u8; 16];
    let mut buffer: Buffer<64> = Buffer::new(&mut inner);
    let length = buffer.get_next_length();
    assert_eq!(16, length);
    assert_eq!(b"AT+CIPRECVDATA=0,5\r\n".to_vec(), ReceiveDataCommand::<64>::new(0, 5).encode());
    feed(&mut session, b"+CIPRECVDATA:5,abcde");
    assert_eq!(Ok(false), session.receive_step(&socket, &mut buffer));
    assert!(!session.is_data_available(&socket));
    assert_eq!(5, buffer.len());
    assert_eq!(0, session.sockets[0].data_available);
    assert_eq!(b"abcde", &inner[..5]);
}

#[test]
fn receive_without_data_frame_fails() {
    let (mut session, socket) = connected_session();
    feed(&mut session, b"+IPD,0,5\r\n");
    let mut inner = [0u8; 16];
    let mut buffer: Buffer<64> = Buffer::new(&mut inner);
    assert_eq!(
        Err(Error::ReceiveFailed(AtError::InvalidResponse)),
        session.receive_step(&socket, &mut buffer)
    );
    assert_eq!(0, buffer.len());
}

#[test]
fn receive_overflow_and_continuation() {
    let (mut session, socket) = connected_session();
    feed(&mut session, b"+IPD,0,9\r\n");
    let mut inner = [0u8; 4];
    let mut buffer: Buffer<64> = Buffer::new(&mut inner);
    feed(&mut session, b"+CIPRECVDATA:3,abc");
    assert_eq!(Ok(true), session.receive_step(&socket, &mut buffer));
    assert_eq!(6, session.sockets[0].data_available);
    feed(&mut session, b"+CIPRECVDATA:2,de");
    assert_eq!(Err(Error::ReceiveOverflow), session.receive_step(&socket, &mut buffer));
    assert_eq!(3, buffer.len());
    assert_eq!(6, session.sockets[0].data_available);
    feed(&mut session, b"+CIPRECVDATA:1,d");
    assert_eq!(Ok(false), session.receive_step(&socket, &mut buffer));
    assert_eq!(4, buffer.len());
    assert_eq!(b"abcd", &inner);
}

#[test]
fn receive_frame_longer_than_rx_size_is_refused() {
    let (mut session, socket) = connected_session();
    feed(&mut session, b"+IPD,0,20\r\n");
    match URCMessages::<4>::parse_frame(b"+CIPRECVDATA:5,abcde") {
        Ok((frame, consumed)) => {
            assert_eq!(20, consumed);
            assert!(URCMessages::<4>::parse(&frame).is_none());
        }
        Err(_) => panic!("frame expected"),
    }
    let mut inner = [0u8; 16];
    let mut buffer: Buffer<4> = Buffer::new(&mut inner);
    assert_eq!(
        Err(Error::ReceiveFailed(AtError::InvalidResponse)),
        session.receive_step(&socket, &mut buffer)
    );
}

#[test]
fn scenario_restart_while_connected() {
    let (mut session, socket) = connected_session();
    session.begin_restart();
    assert_eq!(b"AT+RST\r\n".to_vec(), RestartCommand::new().encode());
    session.restart_result(Ok(())).unwrap();
    assert_eq!(None, session.restart_poll(TimerStatus::Pending));
    feed(&mut session, b"ready\r\n");
    assert_eq!(Some(Ok(())), session.restart_poll(TimerStatus::Pending));
    for slot in session.sockets.iter() {
        assert_eq!(ConnectionState::Closed, slot.state);
    }
    assert!(session.ready);
    assert!(!session.joined);
    assert!(!session.ip_assigned);
    assert!(session.is_socket_closed(&socket));
    assert!(session.needs_multiple_connections());
    let next = socket_after_restart(&mut session);
    assert_eq!(0, next.link_id());
}

fn socket_after_restart(session: &mut Session) -> Socket {
    socket(session).unwrap()
}

#[test]
fn restart_failures() {
    let mut session = Session::new();
    session.ready = true;
    session.begin_restart();
    assert!(!session.ready);
    assert_eq!(
        Err(CommandError::CommandFailed(AtError::Error)),
        session.restart_result(Err(AtError::Error))
    );
    assert_eq!(Some(Err(CommandError::ReadyTimeout)), session.restart_poll(TimerStatus::Expired));
    assert_eq!(Some(Err(CommandError::TimerError)), session.restart_poll(TimerStatus::Failed));
}

#[test]
fn restart_resets_wifi_state() {
    let mut session = Session::new();
    feed(&mut session, b"WIFI CONNECTED\r\nWIFI GOT IP\r\n");
    session.restart_result(Ok(())).unwrap();
    assert!(!session.join_state().connected);
    assert!(!session.join_state().ip_assigned);
}

#[test]
fn sixth_socket_is_refused() {
    let mut session = Session::new();
    for id in 0..5 {
        assert_eq!(id, socket(&mut session).unwrap().link_id());
    }
    assert_eq!(Error::NoSocketAvailable, socket(&mut session).unwrap_err());
}

#[test]
fn multiple_connections_enabled_once() {
    let mut session = Session::new();
    let mut sent = 0;
    for _ in 0..4 {
        let command = if session.needs_multiple_connections() {
            sent += 1;
            Some(Ok(()))
        } else {
            None
        };
        session.socket_step(command).unwrap();
    }
    assert_eq!(1, sent);
    let mut failing = Session::new();
    assert_eq!(
        Error::EnablingMultiConnectionsFailed(AtError::Timeout),
        failing.socket_step(Some(Err(AtError::Timeout))).unwrap_err()
    );
    assert_eq!(ConnectionState::Closed, failing.sockets[0].state);
    assert!(failing.needs_multiple_connections());
}

#[test]
fn connect_unconfirmed() {
    let mut session = Session::new();
    let socket = socket(&mut session).unwrap();
    let _ = session.prepare_connect(&socket, SocketAddr::V4(SocketAddrV4::new(Ipv4Addr::new(10, 0, 0, 1), 21)));
    assert_eq!(Err(Error::UnconfirmedSocketState), session.finish_connect(&socket, Ok(())));
}

#[test]
fn connect_already_connected_by_response() {
    let mut session = Session::new();
    let socket = socket(&mut session).unwrap();
    let _ = session.prepare_connect(&socket, SocketAddr::V4(SocketAddrV4::new(Ipv4Addr::new(10, 0, 0, 1), 21)));
    feed(&mut session, b"ALREADY CONNECTED\r\n");
    assert_eq!(Ok(()), session.finish_connect(&socket, Err(AtError::Error)));
    assert!(session.is_socket_connected(&socket));
    assert_eq!(Err(Error::AlreadyConnected), session.check_not_connected(&socket));
}

#[test]
fn connect_command_error_and_passive_mode_error() {
    let mut session = Session::new();
    let socket = socket(&mut session).unwrap();
    assert_eq!(
        Err(Error::EnablingPassiveSocketModeFailed(AtError::Timeout)),
        session.passive_mode_result(Err(AtError::Timeout))
    );
    let _ = session.prepare_connect(&socket, SocketAddr::V4(SocketAddrV4::new(Ipv4Addr::new(10, 0, 0, 1), 21)));
    assert_eq!(Err(Error::ConnectError(AtError::Timeout)), session.finish_connect(&socket, Err(AtError::Timeout)));
}

#[test]
fn connect_resets_available_data() {
    let mut session = Session::new();
    let socket = socket(&mut session).unwrap();
    feed(&mut session, b"+IPD,0,100\r\n");
    feed(&mut session, b"0,CONNECT\r\n");
    session.finish_connect(&socket, Ok(())).unwrap();
    assert!(!session.is_data_available(&socket));
}

#[test]
fn connected_until_closed() {
    let (mut session, socket) = connected_session();
    feed(&mut session, b"WIFI GOT IP\r\n+IPD,0,4\r\n1,CLOSED\r\n");
    assert!(session.is_socket_connected(&socket));
    feed(&mut session, b"0,CLOSED\r\n");
    assert!(!session.is_socket_connected(&socket));
    assert!(session.is_socket_closing(&socket));
}

#[test]
fn close_states() {
    let mut session = Session::new();
    let open = socket(&mut session).unwrap();
    assert!(!session.begin_close(&open));
    assert!(session.is_socket_closed(&open));

    let (mut session, socket) = connected_session();
    assert!(session.begin_close(&socket));
    assert_eq!(b"AT+CIPCLOSE=0\r\n".to_vec(), CloseSocketCommand::new(0).encode());
    feed(&mut session, b"0,CLOSED\r\n");
    assert_eq!(Ok(()), session.finish_close(&socket, Ok(())));
    assert!(session.is_socket_closed(&socket));

    let (mut session, socket) = connected_session();
    assert_eq!(Err(Error::UnconfirmedSocketState), session.finish_close(&socket, Ok(())));
    assert!(session.is_socket_closed(&socket));

    let (mut session, socket) = connected_session();
    assert_eq!(Err(Error::CloseError(AtError::Error)), session.finish_close(&socket, Err(AtError::Error)));
    assert!(session.is_socket_closed(&socket));
}

#[test]
fn join_credential_bounds() {
    let ssid = "a".repeat(33);
    assert_eq!(JoinError::InvalidSSDLength, AccessPointConnectCommand::new(&ssid, "pw").err().unwrap());
    let key = "k".repeat(64);
    assert_eq!(JoinError::InvalidPasswordLength, AccessPointConnectCommand::new("ssid", &key).err().unwrap());
    assert!(AccessPointConnectCommand::new(&"a".repeat(32), &"k".repeat(63)).is_ok());
}

#[test]
fn auto_connect_commands() {
    assert_eq!(b"AT+CWAUTOCONN=1\r\n".to_vec(), AutoConnectCommand::new(true).encode());
    assert_eq!(b"AT+CWAUTOCONN=0\r\n".to_vec(), AutoConnectCommand::new(false).encode());
    assert_eq!(
        CommandError::CommandFailed(AtError::Timeout),
        AutoConnectCommand::new(true).command_error(AtError::Timeout)
    );
    assert_eq!(JoinError::ModeError(AtError::Error), WifiModeCommand::station_mode().command_error(AtError::Error));
}

#[test]
fn two_digit_lengths_encode() {
    assert_eq!(b"AT+CIPSEND=3,1024\r\n".to_vec(), TransmissionPrepareCommand::new(3, 1024).encode());
    assert_eq!(b"AT+CIPCLOSE=4\r\n".to_vec(), CloseSocketCommand::new(4).encode());
}

#[test]
fn ipv4_text_round_trip_values() {
    for ip in [Ipv4Addr::new(0, 0, 0, 0), Ipv4Addr::new(255, 255, 255, 255), Ipv4Addr::new(10, 0, 100, 9)] {
        let text = esp_at_nal::net::ipv4_to_string(&ip);
        assert_eq!(ip, Ipv4Addr::parse(&text).unwrap());
    }
    assert_eq!(b"10.0.100.9".to_vec(), esp_at_nal::net::ipv4_to_string(&Ipv4Addr::new(10, 0, 100, 9)));
}

#[test]
fn ipv6_text_round_trip_values() {
    let ip = Ipv6Addr::new(0xfe80, 0, 0x1, 0xabc, 0xffff, 0x10, 0, 0x84c);
    let text = esp_at_nal::net::ipv6_to_string(&ip);
    assert_eq!(b"fe80:0:0001:0abc:ffff:0010:0:084c".to_vec(), text);
    assert_eq!(ip, Ipv6Addr::parse(&text).unwrap());
}

#[test]
fn reduce_available_saturates() {
    let (mut session, socket) = connected_session();
    feed(&mut session, b"+IPD,0,3\r\n");
    session.reduce_available_data(&socket, 10);
    assert_eq!(0, session.sockets[0].data_available);
    feed(&mut session, b"+IPD,0,10\r\n+IPD,7,10\r\n");
    session.reduce_available_data(&socket, 4);
    assert_eq!(6, session.sockets[0].data_available);
    assert!(session.is_received_byte_count_incorrect(3) == false);
}

#[test]
fn closed_slot_is_reused_first() {
    let mut session = Session::new();
    let first = socket(&mut session).unwrap();
    let second = socket(&mut session).unwrap();
    assert_eq!(1, second.link_id());
    assert!(!session.begin_close(&first));
    let again = socket(&mut session).unwrap();
    assert_eq!(0, again.link_id());
    assert!(session.is_socket_open(&again));
}

#[test]
fn boot_banner_sets_ready() {
    let mut session = Session::new();
    feed(
        &mut session,
        b"\r\nets Jan  8 2013,rst cause:1, boot mode:(3,7)\r\n\r\nload 0x40100000, len 2592, room 16\r\n\r\nready\r\nWIFI GOT IP\r\n",
    );
    assert!(session.ready);
    assert!(session.ip_assigned);
}

#[test]
fn events_for_unknown_link_ids_are_ignored() {
    let mut session = Session::new();
    session.handle_urc(URCMessages::<16>::DataAvailable(7, 10));
    session.handle_urc(URCMessages::<16>::SocketConnected(9));
    for slot in session.sockets.iter() {
        assert_eq!(ConnectionState::Closed, slot.state);
        assert_eq!(0, slot.data_available);
    }
}

#[test]
fn wifi_disconnect_clears_ip() {
    let mut session = Session::new();
    feed(&mut session, b"WIFI CONNECTED\r\nWIFI GOT IP\r\nWIFI DISCONNECT\r\n");
    assert!(!session.join_state().connected);
    assert!(!session.join_state().ip_assigned);
}

#[test]
fn credentials_are_escaped() {
    let command = AccessPointConnectCommand::new("a\"b", "p\\w\n").unwrap();
    assert_eq!(b"AT+CWJAP=\"a\\22b\",\"p\\5Cw\\0A\"\r\n".to_vec(), command.encode());
}

#[test]
fn chunks_are_announced_in_tx_size_pieces() {
    let (mut session, socket) = connected_session();
    feed(&mut session, b"Recv 4 bytes\r\nSEND OK\r\n");
    let prepare = session.prepare_chunk(&socket, 300, 256);
    assert_eq!(256, prepare.length);
    assert_eq!(None, session.send_confirmed);
    assert_eq!(None, session.recv_byte_count);
    assert_eq!(44, session.prepare_chunk(&socket, 44, 256).length);
}

#[test]
fn receive_zero_length_payload() {
    let (mut session, socket) = connected_session();
    feed(&mut session, b"+IPD,0,2\r\n");
    let mut inner = [7u8; 4];
    let mut buffer: Buffer<64> = Buffer::new(&mut inner);
    feed(&mut session, b"+CIPRECVDATA:0,");
    assert_eq!(Ok(true), session.receive_step(&socket, &mut buffer));
    assert_eq!(0, buffer.len());
    assert_eq!(2, session.sockets[0].data_available);
}

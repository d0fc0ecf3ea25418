use websocket_bridge::proxy_socks5::{
    client_greeting, handle_client_socks5_connect_request, handle_client_socks5_greeting_request,
    handle_server_side_socks5_connect_response, handle_server_side_socks5_greeting_response,
    handle_server_side_socks5_request, ClientGreeting, Socks5Error,
};

#[test]
fn greetings_are_answered() {
    assert_eq!(handle_client_socks5_greeting_request(&vec![5, 1, 0], 3), Ok(vec![5, 0]));
    assert_eq!(handle_client_socks5_greeting_request(&vec![5, 2, 0, 1], 4), Ok(vec![5, 0]));
    assert_eq!(handle_client_socks5_greeting_request(&vec![5, 1, 0, 9, 9], 3), Ok(vec![5, 0]));
}

#[test]
fn other_packets_are_ignored() {
    for p in [vec![], vec![5], vec![5, 1], vec![5, 1, 1], vec![4, 1, 0], vec![5, 2, 0, 2],
        vec![5, 1, 0, 0], vec![0; 1024]] {
        let n = p.len();
        assert_eq!(handle_client_socks5_greeting_request(&p, n), Err(Socks5Error::Ignored));
    }
}

#[test]
fn greetings_are_told_apart() {
    assert_eq!(client_greeting(&vec![5, 1, 0], 3), Some(ClientGreeting::NoAuth));
    assert_eq!(client_greeting(&vec![5, 2, 0, 1], 4), Some(ClientGreeting::NoAuthOrGssapi));
    assert_eq!(client_greeting(&vec![5, 2, 0, 1], 3), None);
    assert_eq!(ClientGreeting::NoAuth.to_bytes(), vec![5, 1, 0]);
    assert_eq!(ClientGreeting::NoAuthOrGssapi.to_bytes(), vec![5, 2, 0, 1]);
}

#[test]
fn connect_request_is_answered() {
    let request = vec![5, 1, 0, 3, 10, 103, 111, 111, 103, 108, 101, 46, 99, 111, 109, 0, 80];
    assert_eq!(
        handle_client_socks5_connect_request(&request, 17),
        Some(vec![5, 0, 0, 1, 0, 0, 0, 0, 0, 0])
    );
    for kind in [1u8, 4] {
        assert_eq!(
            handle_client_socks5_connect_request(&vec![5, 1, 0, kind, 0, 0], 6),
            Some(vec![5, 0, 0, 1, 0, 0, 0, 0, 0, 0])
        );
    }
}

#[test]
fn no_connect_request() {
    for p in [vec![5, 1, 0, 1, 0], vec![4, 1, 0, 1, 0, 0], vec![5, 2, 0, 1, 0, 0],
        vec![5, 1, 1, 1, 0, 0], vec![5, 1, 0, 2, 0, 0], vec![]] {
        let n = p.len();
        assert_eq!(handle_client_socks5_connect_request(&p, n), None);
    }
}

#[test]
fn a_greeting_is_no_connect_request() {
    for g in [ClientGreeting::NoAuth, ClientGreeting::NoAuthOrGssapi] {
        let p = g.to_bytes();
        assert_eq!(handle_client_socks5_connect_request(&p, p.len()), None);
    }
}

#[test]
fn server_is_greeted() {
    assert_eq!(handle_server_side_socks5_request(&vec![], 0), vec![5, 1, 0]);
    assert_eq!(handle_server_side_socks5_request(&vec![1, 2], 2), vec![5, 1, 0]);
}

#[test]
fn the_greeting_to_the_server_is_one_that_is_answered() {
    let greeting = handle_server_side_socks5_request(&vec![], 0);
    let answer = handle_client_socks5_greeting_request(&greeting, greeting.len()).unwrap();
    assert_eq!(handle_server_side_socks5_greeting_response(&answer, answer.len()), Ok(()));
}

#[test]
fn greeting_response() {
    assert_eq!(handle_server_side_socks5_greeting_response(&vec![5, 0], 2), Ok(()));
    assert_eq!(handle_server_side_socks5_greeting_response(&vec![5, 0, 7], 2), Ok(()));
    for (p, n) in [(vec![5, 0, 0], 3), (vec![5, 1], 2), (vec![4, 0], 2), (vec![5], 1)] {
        assert_eq!(
            handle_server_side_socks5_greeting_response(&p, n),
            Err(Socks5Error::GreetingResponse)
        );
    }
}

#[test]
fn connect_response() {
    let answer = vec![5, 0, 0, 1, 0, 0, 0, 0, 0, 0];
    assert_eq!(handle_server_side_socks5_connect_response(&answer, 10), Ok(()));
    assert_eq!(
        handle_server_side_socks5_connect_response(&answer, 9),
        Err(Socks5Error::ConnectResponse)
    );
    assert_eq!(
        handle_server_side_socks5_connect_response(&vec![5, 1, 0, 1, 0, 0, 0, 0, 0, 0], 10),
        Err(Socks5Error::ConnectResponse)
    );
}

#[test]
fn the_answer_to_a_connect_request_is_taken() {
    let reply = handle_client_socks5_connect_request(&vec![5, 1, 0, 1, 0, 0], 6).unwrap();
    assert_eq!(handle_server_side_socks5_connect_response(&reply, reply.len()), Ok(()));
}

#[test]
fn messages_of_socks5_errors() {
    assert_eq!(Socks5Error::Ignored.message(), "ignored");
    assert_eq!(
        Socks5Error::GreetingResponse.message(),
        "socks5 server greeting response [5, 1] not received"
    );
    assert_eq!(
        Socks5Error::ConnectResponse.message(),
        "socks5 server connect response [5, 0, 0, 1, 0, 0, 0, 0, 0, 0] not received"
    );
}

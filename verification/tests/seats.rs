use paged_memory::seating::{
    count_handled, first_free, Client, Seat, Server, MAX_CLIENTS, MAX_SERVICE_MILLIS, MIN_CLIENTS,
    MIN_SERVICE_MILLIS, SEAT_COUNT,
};

fn seats(taken: &[bool]) -> Vec<Seat> {
    taken.iter().enumerate().map(|(id, taken)| Seat { id, taken: *taken }).collect()
}

#[test]
fn the_first_free_seat_is_found() {
    assert_eq!(first_free(&seats(&[])), None);
    assert_eq!(first_free(&seats(&[false, false, false])), Some(0));
    assert_eq!(first_free(&seats(&[true, false, false])), Some(1));
    assert_eq!(first_free(&seats(&[true, true, false])), Some(2));
    assert_eq!(first_free(&seats(&[true, true, true])), None);
    assert_eq!(first_free(&seats(&[false, true, false])), Some(0));
}

#[test]
fn handling_marks_the_client() {
    let server = Server::default();
    let mut client = Client { id: 4, handled: false };
    server.handle(&mut client);
    assert!(client.handled);
    assert_eq!(client.id, 4);
    server.handle(&mut client);
    assert!(client.handled);
    let fresh = Client::default();
    assert!(!fresh.handled);
    assert!(!Seat::default().taken);
}

#[test]
fn handled_clients_are_counted() {
    let server = Server {};
    let mut clients: Vec<Client> =
        (0..MAX_CLIENTS).map(|id| Client { id, handled: false }).collect();
    assert_eq!(count_handled(&clients), 0);
    for client in clients.iter_mut().take(SEAT_COUNT) {
        server.handle(client);
    }
    assert_eq!(count_handled(&clients), 3);
    assert_eq!(count_handled(&Vec::new()), 0);
    assert!(MIN_CLIENTS <= MAX_CLIENTS);
}

#[test]
fn service_takes_a_few_milliseconds() {
    let server = Server::default();
    let mut seen = [false; 16];
    for _ in 0..400 {
        let millis = server.service_millis();
        assert!((MIN_SERVICE_MILLIS..=MAX_SERVICE_MILLIS).contains(&millis));
        assert!((4..=8).contains(&millis));
        seen[millis as usize] = true;
    }
    assert!(seen.iter().filter(|s| **s).count() > 1);
}

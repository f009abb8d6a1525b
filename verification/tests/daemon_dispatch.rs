//! The daemon's dispatch step: one reply per request on the request's own
//! endpoint, Shutdown as the only exit, and the key/value store's behaviour.
use rust_companion::{
    DispatchOutcome, HandleKind, Response, Sender, Store, Task, dispatch, i64_to_string,
    sum_values,
};

fn sender(fd: i32) -> Sender<Response> {
    Sender::from_raw(fd)
}

fn reply_of(out: DispatchOutcome) -> (i32, Response) {
    match out {
        DispatchOutcome::Reply(tx, resp) => (tx.into_handle().into_raw(), resp),
        DispatchOutcome::Shutdown => panic!("expected a reply"),
    }
}

#[test]
fn get_on_empty_store_is_not_found() {
    let mut store = Store::new();
    let (fd, resp) = reply_of(dispatch(Task::Get(String::from("k"), sender(5)), &mut store));
    assert_eq!(fd, 5);
    assert!(matches!(resp, Response::NotFound));
}

#[test]
fn put_then_get_returns_the_value() {
    let mut store = Store::new();
    let (_, resp) = reply_of(dispatch(
        Task::Put(String::from("k"), String::from("v"), sender(1)),
        &mut store,
    ));
    assert!(matches!(resp, Response::Done));
    let (fd, resp) = reply_of(dispatch(Task::Get(String::from("k"), sender(2)), &mut store));
    assert_eq!(fd, 2);
    match resp {
        Response::String(s) => assert_eq!(s, "v"),
        _ => panic!("wrong reply"),
    }
}

#[test]
fn put_overwrites_in_place() {
    let mut store = Store::new();
    dispatch(Task::Put(String::from("k"), String::from("v1"), sender(1)), &mut store);
    dispatch(Task::Put(String::from("k"), String::from("v2"), sender(1)), &mut store);
    dispatch(Task::Put(String::from("other"), String::from("x"), sender(1)), &mut store);
    let (_, resp) = reply_of(dispatch(Task::Get(String::from("k"), sender(2)), &mut store));
    match resp {
        Response::String(s) => assert_eq!(s, "v2"),
        _ => panic!("wrong reply"),
    }
    let (_, resp) = reply_of(dispatch(Task::List(sender(3)), &mut store));
    match resp {
        Response::List(keys) => assert_eq!(keys, vec!["k", "other"]),
        _ => panic!("wrong reply"),
    }
}

#[test]
fn list_on_empty_store_is_empty() {
    let mut store = Store::new();
    let (_, resp) = reply_of(dispatch(Task::List(sender(1)), &mut store));
    match resp {
        Response::List(keys) => assert!(keys.is_empty()),
        _ => panic!("wrong reply"),
    }
}

#[test]
fn sum_replies_on_the_embedded_endpoint() {
    // The reply-continuation scenario: the request carries its reply channel,
    // and the answer to Sum([23, 42]) is 65 on exactly that endpoint.
    let mut store = Store::new();
    let (fd, resp) = reply_of(dispatch(Task::Sum(vec![23, 42], sender(17)), &mut store));
    assert_eq!(fd, 17);
    match resp {
        Response::String(s) => assert_eq!(s, "65"),
        _ => panic!("wrong reply"),
    }
}

#[test]
fn sum_of_negatives() {
    let mut store = Store::new();
    let (_, resp) = reply_of(dispatch(Task::Sum(vec![-1, -2, 3], sender(1)), &mut store));
    match resp {
        Response::String(s) => assert_eq!(s, "0"),
        _ => panic!("wrong reply"),
    }
}

#[test]
fn shutdown_is_the_only_exit() {
    let mut store = Store::new();
    assert!(matches!(dispatch(Task::Shutdown, &mut store), DispatchOutcome::Shutdown));
    assert!(matches!(
        dispatch(Task::Get(String::from("k"), sender(1)), &mut store),
        DispatchOutcome::Reply(..)
    ));
}

#[test]
fn sum_values_wraps() {
    assert_eq!(sum_values(&vec![]), 0);
    assert_eq!(sum_values(&vec![23, 42]), 65);
    assert_eq!(sum_values(&vec![i64::MAX, 1]), i64::MIN);
}

#[test]
fn decimal_rendering() {
    assert_eq!(i64_to_string(0), "0");
    assert_eq!(i64_to_string(65), "65");
    assert_eq!(i64_to_string(-1), "-1");
    assert_eq!(i64_to_string(1000), "1000");
    assert_eq!(i64_to_string(i64::MIN), "-9223372036854775808");
    assert_eq!(i64_to_string(i64::MAX), "9223372036854775807");
}

#[test]
fn store_get_and_keys() {
    let mut store = Store::new();
    assert_eq!(store.len(), 0);
    store.insert(String::from("a"), String::from("1"));
    store.insert(String::from("b"), String::from("2"));
    store.insert(String::from("a"), String::from("3"));
    assert_eq!(store.len(), 2);
    assert_eq!(store.get(&String::from("a")), Some(String::from("3")));
    assert_eq!(store.get(&String::from("b")), Some(String::from("2")));
    assert_eq!(store.get(&String::from("c")), None);
    assert_eq!(store.keys(), vec!["a", "b"]);
    let _ = HandleKind::ChannelEndpoint;
}

use cluster_write::errors::{AuthCode, AuthFailStatus, ClusterWriteError, Error, ServerError};
use cluster_write::write::WriteResponse;

fn keys(names: &[&str]) -> Vec<String> {
    names.iter().map(|n| n.to_string()).collect()
}

#[test]
fn empty_input_is_all_ok() {
    let r = ClusterWriteError::aggregate(Vec::new());
    assert_eq!(r.ok.0, Vec::<String>::new());
    assert_eq!(r.ok.1, WriteResponse::new(0, 0));
    assert!(r.errors.is_empty());
    assert!(r.all_ok());
}

#[test]
fn all_success_sums_counts_and_keys() {
    let results = vec![
        (keys(&["m1"]), Ok(WriteResponse::new(5, 1))),
        (keys(&["m2", "m3"]), Ok(WriteResponse::new(2, 0))),
        (keys(&["m4"]), Ok(WriteResponse::new(3, 4))),
    ];
    let r = ClusterWriteError::aggregate(results);
    assert_eq!(r.ok.0, keys(&["m1", "m2", "m3", "m4"]));
    assert_eq!(r.ok.1, WriteResponse::new(10, 5));
    assert!(r.errors.is_empty());
    assert!(r.all_ok());
}

#[test]
fn mixed_results_split_ok_and_errors() {
    let results = vec![
        (keys(&["m1"]), Ok(WriteResponse::new(5, 1))),
        (keys(&["m2", "m3"]), Ok(WriteResponse::new(2, 0))),
        (
            keys(&["m4"]),
            Err(Error::Connect {
                addr: "h1:9000".to_string(),
                source: "connection refused".to_string(),
            }),
        ),
    ];
    let r = ClusterWriteError::aggregate(results);
    assert_eq!(r.ok.0, keys(&["m1", "m2", "m3"]));
    assert_eq!(r.ok.1, WriteResponse::new(7, 1));
    assert_eq!(r.errors.len(), 1);
    assert_eq!(r.errors[0].0, keys(&["m4"]));
    match &r.errors[0].1 {
        Error::Connect { addr, source } => {
            assert_eq!(addr, "h1:9000");
            assert_eq!(source, "connection refused");
        }
        other => panic!("expected a connect failure, got {:?}", other),
    }
    assert!(!r.all_ok());
}

#[test]
fn single_auth_failure() {
    let results = vec![(
        Vec::new(),
        Err(Error::AuthFail(AuthFailStatus {
            code: AuthCode::InvalidTokenMeta,
            msg: "bad token".to_string(),
        })),
    )];
    let r = ClusterWriteError::aggregate(results);
    assert_eq!(r.ok.0, Vec::<String>::new());
    assert_eq!(r.ok.1, WriteResponse::new(0, 0));
    assert_eq!(r.errors.len(), 1);
    assert_eq!(r.errors[0].0, Vec::<String>::new());
    match &r.errors[0].1 {
        Error::AuthFail(status) => {
            assert_eq!(status.code, AuthCode::InvalidTokenMeta);
            assert_eq!(status.msg, "bad token");
        }
        other => panic!("expected an auth failure, got {:?}", other),
    }
    assert!(!r.all_ok());
}

#[test]
fn failures_keep_order_and_identity() {
    let results = vec![
        (
            keys(&["a"]),
            Err(Error::Server(ServerError {
                code: 401,
                msg: "rejected".to_string(),
            })),
        ),
        (keys(&["b"]), Ok(WriteResponse::new(1, 0))),
        (
            keys(&["c"]),
            Err(Error::Rpc(tonic::Status::new(
                tonic::Code::Unavailable,
                "shard down",
            ))),
        ),
        (keys(&["d"]), Err(Error::Unknown("mystery".to_string()))),
    ];
    let r = ClusterWriteError::aggregate(results);
    assert_eq!(r.errors.len(), 3);
    assert_eq!(r.errors[0].0, keys(&["a"]));
    match &r.errors[0].1 {
        Error::Server(e) => {
            assert_eq!(e.code, 401);
            assert_eq!(e.msg, "rejected");
        }
        other => panic!("expected a server failure, got {:?}", other),
    }
    assert_eq!(r.errors[1].0, keys(&["c"]));
    match &r.errors[1].1 {
        Error::Rpc(status) => {
            assert_eq!(status.code(), tonic::Code::Unavailable);
            assert_eq!(status.message(), "shard down");
        }
        other => panic!("expected an rpc failure, got {:?}", other),
    }
    assert_eq!(r.errors[2].0, keys(&["d"]));
    match &r.errors[2].1 {
        Error::Unknown(msg) => assert_eq!(msg, "mystery"),
        other => panic!("expected an unknown failure, got {:?}", other),
    }
}

#[test]
fn keys_partition_across_ok_and_errors() {
    let results = vec![
        (keys(&["m1", "m2"]), Ok(WriteResponse::new(1, 0))),
        (keys(&["m3"]), Err(Error::Client("not started".to_string()))),
        (keys(&["m4", "m5"]), Ok(WriteResponse::new(2, 2))),
        (keys(&["m6"]), Err(Error::Unknown("boom".to_string()))),
    ];
    let r = ClusterWriteError::aggregate(results);
    let mut seen: Vec<String> = r.ok.0.clone();
    for (error_keys, _) in &r.errors {
        seen.extend(error_keys.iter().cloned());
    }
    seen.sort();
    assert_eq!(seen, keys(&["m1", "m2", "m3", "m4", "m5", "m6"]));
}

#[test]
fn empty_key_list_success_counts_only() {
    let results = vec![
        (Vec::new(), Ok(WriteResponse::new(9, 3))),
        (keys(&["m1"]), Ok(WriteResponse::new(1, 1))),
    ];
    let r = ClusterWriteError::aggregate(results);
    assert_eq!(r.ok.0, keys(&["m1"]));
    assert_eq!(r.ok.1, WriteResponse::new(10, 4));
    assert!(r.all_ok());
}

#[test]
fn totals_reach_the_counter_limit() {
    let results = vec![
        (keys(&["m1"]), Ok(WriteResponse::new(u32::MAX - 7, 1))),
        (keys(&["m2"]), Ok(WriteResponse::new(7, u32::MAX - 1))),
    ];
    let r = ClusterWriteError::aggregate(results);
    assert_eq!(r.ok.1, WriteResponse::new(u32::MAX, u32::MAX));
    assert!(r.all_ok());
}

#[test]
fn reaggregating_a_result_reproduces_it() {
    let results = vec![
        (keys(&["m1"]), Ok(WriteResponse::new(5, 1))),
        (
            keys(&["m2"]),
            Err(Error::Server(ServerError {
                code: 500,
                msg: "overloaded".to_string(),
            })),
        ),
        (keys(&["m3", "m4"]), Ok(WriteResponse::new(2, 0))),
        (keys(&["m5"]), Err(Error::Client("finished".to_string()))),
    ];
    let first = ClusterWriteError::aggregate(results);

    let mut again: Vec<(Vec<String>, Result<WriteResponse, Error>)> = Vec::new();
    again.push((first.ok.0.clone(), Ok(first.ok.1)));
    for (error_keys, error) in first.errors {
        again.push((error_keys, Err(error)));
    }
    let second = ClusterWriteError::aggregate(again);

    assert_eq!(second.ok.0, keys(&["m1", "m3", "m4"]));
    assert_eq!(second.ok.1, WriteResponse::new(7, 1));
    assert_eq!(second.errors.len(), 2);
    assert_eq!(second.errors[0].0, keys(&["m2"]));
    assert!(matches!(&second.errors[0].1, Error::Server(e) if e.code == 500));
    assert_eq!(second.errors[1].0, keys(&["m5"]));
    assert!(matches!(&second.errors[1].1, Error::Client(msg) if msg == "finished"));
}

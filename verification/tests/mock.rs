use hotaru::mock::{answer, nodes_json, recent_json, report, request_complete, request_path, response};
use serde_json::Value;

#[test]
fn paths_are_the_second_word() {
    assert_eq!(request_path("GET /api/nodes HTTP/1.1\r\nHost: x\r\n\r\n"), "/api/nodes");
    assert_eq!(request_path("GET"), "/");
    assert_eq!(request_path("\nGET /x"), "/");
    assert_eq!(request_path("  POST   /y\r\n"), "/y");
    assert!(request_complete("GET / HTTP/1.1\r\n\r\n"));
    assert!(!request_complete("GET / HTTP/1.1\r\n"));
    assert!(request_complete(&"x".repeat(16385)));
}

#[test]
fn answers_are_json() {
    let (status, body) = answer("/api/nodes", 5);
    assert_eq!(status, "200 OK");
    assert_eq!(body, nodes_json());
    let v: Value = serde_json::from_str(&body).unwrap();
    assert_eq!(v.pointer("/data/1/name").and_then(|x| x.as_str()), Some("测试节点B"));
    let (_, hot) = answer("/api/recent/22222222", 5);
    let v: Value = serde_json::from_str(&hot).unwrap();
    assert_eq!(v.pointer("/data/0/cpu/usage").and_then(|x| x.as_f64()), Some(88.0));
    assert_eq!(v.pointer("/data/0/updated_at").and_then(|x| x.as_u64()), Some(5));
    let (_, well) = answer("/api/recent//api/recent/1111x", 5);
    assert_eq!(well, recent_json("1111", 5));
    assert!(well.contains(&report("32", 4294967296, 8589934592, "2048", "3355443.2", 5)));
    assert_eq!(answer("/ping", 0).1, "pong");
    assert!(answer("/api/version", 0).1.contains("0.0.0-mock"));
    assert_eq!(answer("/x", 0).0, "404 Not Found");
}

#[test]
fn responses_name_their_length() {
    assert_eq!(
        response("200 OK", "节"),
        "HTTP/1.1 200 OK\r\nContent-Type: application/json\r\nContent-Length: 3\r\nConnection: close\r\n\r\n节"
    );
}

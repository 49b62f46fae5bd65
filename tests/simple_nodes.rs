use maelstrom_node::echo;
use maelstrom_node::unique_ids;

#[test]
fn echo_answers_init_and_echo() {
    let mut server = echo::EchoServer::initialize("n1".to_string());
    let init = echo::Message {
        src: "c1".to_string(),
        dest: "n1".to_string(),
        body: echo::Body::Init(echo::Init {
            msg_id: 1,
            node_id: "n1".to_string(),
            node_ids: vec!["n1".to_string()],
        }),
    };
    let r = init.prepare_reply(server.incremented_msg_id()).unwrap();
    assert_eq!(r.src, "n1");
    assert_eq!(r.dest, "c1");
    assert_eq!(r.body, echo::Body::InitOk(echo::InitOk { msg_id: 1, in_reply_to: 1 }));
    let e = echo::Message {
        src: "c2".to_string(),
        dest: "n1".to_string(),
        body: echo::Body::Echo(echo::Echo { msg_id: 7, echo: "hello".to_string() }),
    };
    let r = e.prepare_reply(server.incremented_msg_id()).unwrap();
    assert_eq!(
        r.body,
        echo::Body::EchoOk(echo::EchoOk { msg_id: 2, in_reply_to: 7, echo: "hello".to_string() })
    );
    assert_eq!(r.dest, "c2");
    assert_eq!(server.node_id, "n1");
}

#[test]
fn echo_ignores_replies() {
    let m = echo::Message {
        src: "c1".to_string(),
        dest: "n1".to_string(),
        body: echo::Body::EchoOk(echo::EchoOk { msg_id: 1, in_reply_to: 1, echo: "x".to_string() }),
    };
    assert_eq!(m.prepare_reply(5), None);
}

#[test]
fn generated_ids_name_node_and_counter() {
    let mut node = unique_ids::Node::initialize("n3".to_string());
    let mut ids = Vec::new();
    for k in 0..12u64 {
        let m = unique_ids::Message {
            src: "c1".to_string(),
            dest: "n3".to_string(),
            body: unique_ids::Body::Generate(unique_ids::Generate { msg_id: k }),
        };
        match m.prepare_reply(&mut node).unwrap().body {
            unique_ids::Body::GenerateOk(o) => {
                assert_eq!(o.in_reply_to, k);
                assert_eq!(o.msg_id, k + 1);
                ids.push(o.id);
            }
            other => panic!("unexpected {:?}", other),
        }
    }
    assert_eq!(ids[0], "n3_1");
    assert_eq!(ids[11], "n3_12");
    let mut unique = ids.clone();
    unique.sort();
    unique.dedup();
    assert_eq!(unique.len(), 12);
}

#[test]
fn id_node_ignores_replies() {
    let mut node = unique_ids::Node::initialize("n1".to_string());
    let m = unique_ids::Message {
        src: "c1".to_string(),
        dest: "n1".to_string(),
        body: unique_ids::Body::InitOk(unique_ids::InitOk { msg_id: 1, in_reply_to: 1 }),
    };
    assert_eq!(m.prepare_reply(&mut node), None);
    assert_eq!(node.msg_id, 0);
}

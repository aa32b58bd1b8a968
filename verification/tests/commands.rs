use simple_redis::{error_reply, extract_args, hmget_reply, Backend, BulkString, Command,
    CommandError, Echo, Get, HGet, HGetAll, HMGet, HSet, RespArray, RespFrame, RespNull, SAdd,
    SIsmember, SetCmd, SimpleString};

fn bulk(s: &str) -> RespFrame {
    RespFrame::BulkString(BulkString::new(s.as_bytes().to_vec()))
}

fn req(parts: &[&str]) -> RespArray {
    RespArray::new(parts.iter().map(|p| bulk(p)).collect())
}

fn resp_ok() -> RespFrame {
    RespFrame::SimpleString(SimpleString::new("OK".to_string()))
}

#[test]
fn command_test_command() {
    let mut buf: Vec<u8> = b"*2\r\n$3\r\nget\r\n$5\r\nhello\r\n".to_vec();
    let frame = RespArray::decode(&mut buf).unwrap();
    let cmd = Command::try_from_array(frame).unwrap();

    let backend = Backend::new();

    let ret = cmd.execute(&backend);
    assert_eq!(ret, RespFrame::Null(RespNull));
}

#[test]
fn mod_test_command() {
    let mut buf: Vec<u8> = b"*2\r\n$3\r\nget\r\n$5\r\nhello\r\n".to_vec();
    let frame = RespArray::decode(&mut buf).unwrap();
    let cmd = Command::try_from_array(frame).unwrap();

    let backend = Backend::new();

    let ret = cmd.execute(&backend);
    assert_eq!(ret, RespFrame::Null(RespNull));
}

#[test]
fn test_echo() {
    let mut buf: Vec<u8> = b"*2\r\n$4\r\necho\r\n$5\r\nhello\r\n".to_vec();
    let echo = Echo::try_from(RespArray::decode(&mut buf).unwrap()).unwrap();
    assert_eq!(echo.message, b"hello".to_vec());
}

#[test]
fn test_hmget_from_resp_array() {
    let mut buf: Vec<u8> =
        b"*4\r\n$5\r\nhmget\r\n$3\r\nmap\r\n$5\r\nhello\r\n$5\r\nworld\r\n".to_vec();

    let frame = RespArray::decode(&mut buf).unwrap();

    let result: HMGet = HMGet::try_from(frame).unwrap();
    let expected = vec![
        HGet {
            key: b"map".to_vec(),
            field: b"hello".to_vec(),
        },
        HGet {
            key: b"map".to_vec(),
            field: b"world".to_vec(),
        },
    ];
    assert_eq!(result.gets, expected);
}

#[test]
fn test_hset_hget_hgetall_commands() {
    let backend = Backend::new();
    let cmd = HSet {
        key: b"map".to_vec(),
        field: b"hello".to_vec(),
        value: bulk("world"),
    };
    let result = cmd.execute(&backend);
    assert_eq!(result, RespFrame::Integer(1));

    let cmd = HSet {
        key: b"map".to_vec(),
        field: b"hello1".to_vec(),
        value: bulk("world1"),
    };
    cmd.execute(&backend);

    let cmd = HGet {
        key: b"map".to_vec(),
        field: b"hello".to_vec(),
    };
    let result = cmd.execute(&backend);
    assert_eq!(result, bulk("world"));

    let cmd = HGetAll {
        key: b"map".to_vec(),
        sort: true,
    };
    let result = cmd.execute(&backend);
    let expected = RespArray::new(vec![
        bulk("hello"),
        bulk("world"),
        bulk("hello1"),
        bulk("world1"),
    ]);
    assert_eq!(result, RespFrame::Array(expected));

    let cmd = HSet {
        key: b"myhash".to_vec(),
        field: b"field1".to_vec(),
        value: bulk("Hello"),
    };
    cmd.execute(&backend);

    let cmd = HSet {
        key: b"myhash".to_vec(),
        field: b"field2".to_vec(),
        value: bulk("World"),
    };
    cmd.execute(&backend);

    let cmd = HMGet {
        gets: vec![
            HGet {
                key: b"myhash".to_vec(),
                field: b"field1".to_vec(),
            },
            HGet {
                key: b"myhash".to_vec(),
                field: b"field2".to_vec(),
            },
            HGet {
                key: b"myhash".to_vec(),
                field: b"nofield".to_vec(),
            },
        ],
    };
    let ret = cmd.execute(&backend);
    let expected = RespArray::new(vec![
        bulk("Hello"),
        bulk("World"),
        RespFrame::Null(RespNull),
    ]);
    assert_eq!(ret, RespFrame::Array(expected));
}

#[test]
fn test_set_get_command() {
    let backend = Backend::new();
    let cmd = SetCmd {
        key: b"hello".to_vec(),
        value: bulk("world"),
    };
    let result = cmd.execute(&backend);
    assert_eq!(result, resp_ok());

    let cmd = Get {
        key: b"hello".to_vec(),
    };
    let result = cmd.execute(&backend);
    assert_eq!(result, bulk("world"));
}

#[test]
fn test_sadd_from_resp_array() {
    let mut buf: Vec<u8> = b"*3\r\n$4\r\nsadd\r\n$5\r\nmyset\r\n$5\r\nhello\r\n".to_vec();

    let frame = RespArray::decode(&mut buf).unwrap();

    let result: SAdd = SAdd::try_from(frame).unwrap();
    assert_eq!(result.key, b"myset".to_vec());
    assert_eq!(result.member, b"hello".to_vec());
}

#[test]
fn test_sismember_from_resp_array() {
    let mut buf: Vec<u8> = b"*3\r\n$9\r\nsismember\r\n$5\r\nmyset\r\n$3\r\none\r\n".to_vec();

    let frame = RespArray::decode(&mut buf).unwrap();

    let result: SIsmember = SIsmember::try_from(frame).unwrap();
    assert_eq!(result.key, b"myset".to_vec());
    assert_eq!(result.member, b"one".to_vec());
}

#[test]
fn arity_and_name_validation() {
    // SET with a missing value is an argument error.
    let ret = SetCmd::try_from(req(&["set", "key"]));
    assert!(matches!(ret.unwrap_err(), CommandError::InvalidArgument));

    // GET with an extra argument is an argument error.
    let ret = Get::try_from(req(&["get", "key", "extra"]));
    assert!(matches!(ret.unwrap_err(), CommandError::InvalidArgument));

    // A request whose first element is not a bulk string is a command error.
    let arr = RespArray::new(vec![RespFrame::Integer(1), bulk("key")]);
    let ret = Command::try_from_array(arr);
    assert!(matches!(ret.unwrap_err(), CommandError::InvalidCommand));

    // A request that is not an array at all is a command error.
    let ret = Command::try_from(bulk("get"));
    assert!(matches!(ret.unwrap_err(), CommandError::InvalidCommand));

    // Names match case-insensitively, and unknown names are acknowledged.
    let cmd = Command::try_from(RespFrame::Array(req(&["GeT", "k"]))).unwrap();
    assert!(matches!(cmd, Command::Get(_)));
    let cmd = Command::try_from(RespFrame::Array(req(&["flushall"]))).unwrap();
    assert!(matches!(cmd, Command::Unrecognized(_)));
    let backend = Backend::new();
    assert_eq!(cmd.execute(&backend), resp_ok());
}

#[test]
fn hset_new_then_overwrite() {
    let backend = Backend::new();
    let first = HSet {
        key: b"h".to_vec(),
        field: b"f".to_vec(),
        value: bulk("v1"),
    }
    .execute(&backend);
    assert_eq!(first, RespFrame::Integer(1));

    let second = HSet {
        key: b"h".to_vec(),
        field: b"f".to_vec(),
        value: bulk("v2"),
    }
    .execute(&backend);
    assert_eq!(second, RespFrame::Integer(0));

    let got = HGet {
        key: b"h".to_vec(),
        field: b"f".to_vec(),
    }
    .execute(&backend);
    assert_eq!(got, bulk("v2"));
}

#[test]
fn hgetall_is_sorted_and_deterministic() {
    let fields = ["zeta", "alpha", "mid", "aaab", "aaa"];
    let forward = Backend::new();
    for f in fields.iter() {
        HSet {
            key: b"k".to_vec(),
            field: f.as_bytes().to_vec(),
            value: bulk(&format!("v-{}", f)),
        }
        .execute(&forward);
    }
    let reversed = Backend::new();
    for f in fields.iter().rev() {
        HSet {
            key: b"k".to_vec(),
            field: f.as_bytes().to_vec(),
            value: bulk(&format!("v-{}", f)),
        }
        .execute(&reversed);
    }
    let run = |b: &Backend| {
        HGetAll {
            key: b"k".to_vec(),
            sort: true,
        }
        .execute(b)
    };
    let a1 = run(&forward);
    let a2 = run(&forward);
    let b1 = run(&reversed);
    assert_eq!(a1, a2);
    assert_eq!(a1, b1);
    let expected = RespArray::new(vec![
        bulk("aaa"),
        bulk("v-aaa"),
        bulk("aaab"),
        bulk("v-aaab"),
        bulk("alpha"),
        bulk("v-alpha"),
        bulk("mid"),
        bulk("v-mid"),
        bulk("zeta"),
        bulk("v-zeta"),
    ]);
    assert_eq!(a1, RespFrame::Array(expected));

    // A key never written answers with the absent array.
    let missing = HGetAll {
        key: b"nosuchhash".to_vec(),
        sort: true,
    }
    .execute(&forward);
    assert_eq!(missing, RespFrame::Array(RespArray::null()));
}

#[test]
fn sismember_key_versus_member_absence() {
    let backend = Backend::new();
    let ret = SIsmember {
        key: b"nosuchkey".to_vec(),
        member: b"m".to_vec(),
    }
    .execute(&backend);
    assert_eq!(ret, RespFrame::Null(RespNull));

    let ret = SAdd {
        key: b"k".to_vec(),
        member: b"m1".to_vec(),
    }
    .execute(&backend);
    assert_eq!(ret, RespFrame::Integer(1));

    let ret = SIsmember {
        key: b"k".to_vec(),
        member: b"m2".to_vec(),
    }
    .execute(&backend);
    assert_eq!(ret, RespFrame::Integer(0));

    let ret = SIsmember {
        key: b"k".to_vec(),
        member: b"m1".to_vec(),
    }
    .execute(&backend);
    assert_eq!(ret, RespFrame::Integer(1));
}

#[test]
fn end_to_end_bytes() {
    let backend = Backend::new();

    let mut buf: Vec<u8> = b"*2\r\n$3\r\nGET\r\n$5\r\nhello\r\n".to_vec();
    let frame = RespFrame::decode(&mut buf).unwrap();
    let cmd = Command::try_from(frame).unwrap();
    let reply = cmd.execute(&backend);
    assert_eq!(reply.encode(), b"_\r\n".to_vec());

    let mut buf: Vec<u8> = b"*3\r\n$3\r\nSET\r\n$5\r\nhello\r\n$5\r\nworld\r\n".to_vec();
    let frame = RespFrame::decode(&mut buf).unwrap();
    let cmd = Command::try_from(frame).unwrap();
    let reply = cmd.execute(&backend);
    assert_eq!(reply.encode(), b"+OK\r\n".to_vec());

    let mut buf: Vec<u8> = b"*2\r\n$3\r\nGET\r\n$5\r\nhello\r\n".to_vec();
    let frame = RespFrame::decode(&mut buf).unwrap();
    let cmd = Command::try_from(frame).unwrap();
    let reply = cmd.execute(&backend);
    assert_eq!(reply.encode(), b"$5\r\nworld\r\n".to_vec());
}

#[test]
fn hmget_resolves_each_field_independently() {
    let backend = Backend::new();
    HSet {
        key: b"m".to_vec(),
        field: b"a".to_vec(),
        value: bulk("1"),
    }
    .execute(&backend);
    let mut buf: Vec<u8> = b"*4\r\n$5\r\nhmget\r\n$1\r\nm\r\n$1\r\na\r\n$1\r\nb\r\n".to_vec();
    let frame = RespArray::decode(&mut buf).unwrap();
    let cmd = HMGet::try_from(frame).unwrap();
    let ret = cmd.execute(&backend);
    let expected = RespArray::new(vec![bulk("1"), RespFrame::Null(RespNull)]);
    assert_eq!(ret, RespFrame::Array(expected));
}

#[test]
fn dispatcher_owes_acceptance_and_fields() {
    // A well-formed GET parses to the Get variant carrying its key.
    let cmd = Command::try_from(RespFrame::Array(req(&["get", "hello"]))).unwrap();
    match cmd {
        Command::Get(g) => assert_eq!(g.key, b"hello".to_vec()),
        _ => panic!("wrong variant"),
    }
    // Dispatch propagates the per-command arity error.
    let ret = Command::try_from(RespFrame::Array(req(&["set", "key"])));
    assert!(matches!(ret.unwrap_err(), CommandError::InvalidArgument));
    // A well-formed variadic HMGET parses to its key/field pairs.
    let cmd = Command::try_from(RespFrame::Array(req(&["hmget", "m", "a", "b"]))).unwrap();
    match cmd {
        Command::HMGet(h) => {
            assert_eq!(h.gets.len(), 2);
            assert_eq!(h.gets[0].key, b"m".to_vec());
            assert_eq!(h.gets[0].field, b"a".to_vec());
            assert_eq!(h.gets[1].field, b"b".to_vec());
        }
        _ => panic!("wrong variant"),
    }
    // HMGET with no key at all is an argument error.
    let ret = Command::try_from(RespFrame::Array(req(&["hmget"])));
    assert!(matches!(ret.unwrap_err(), CommandError::InvalidArgument));
}

#[test]
fn extract_args_beyond_length_is_empty() {
    let args = extract_args(req(&["echo", "hi"]), 1).unwrap();
    assert_eq!(args.len(), 1);
    let args = extract_args(req(&["echo"]), 5).unwrap();
    assert!(args.is_empty());
    let ret = extract_args(RespArray::null(), 0);
    assert!(matches!(ret.unwrap_err(), CommandError::InvalidCommand));
}

#[test]
fn error_reply_bytes() {
    let r = error_reply(CommandError::InvalidCommand);
    assert_eq!(r.encode(), b"-ERR invalid command\r\n".to_vec());
    let r = error_reply(CommandError::InvalidArgument);
    assert_eq!(r.encode(), b"-ERR invalid argument\r\n".to_vec());
}

#[test]
fn hmget_reply_renders_each_answer() {
    let answers = vec![Some(bulk("x")), None, Some(RespFrame::Integer(3))];
    let r = hmget_reply(answers);
    let expected = RespArray::new(vec![bulk("x"), RespFrame::Null(RespNull), RespFrame::Integer(3)]);
    assert_eq!(r, RespFrame::Array(expected));
}

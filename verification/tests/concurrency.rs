use simple_redis::{Backend, RespFrame, SAdd, SIsmember};

// Many tasks add distinct members to one set key at the same time: every
// addition reports "newly inserted" and afterwards every member is present,
// with no lost updates.
#[test]
fn concurrent_sadd_loses_no_updates() {
    let n: usize = 64;
    let backend = Backend::new();
    let rt = tokio::runtime::Builder::new_multi_thread()
        .worker_threads(4)
        .build()
        .unwrap();
    let replies = rt.block_on(async {
        let mut handles = Vec::new();
        for i in 0..n {
            let b = backend.clone();
            handles.push(tokio::spawn(async move {
                SAdd {
                    key: b"samekey".to_vec(),
                    member: format!("member{}", i).into_bytes(),
                }
                .execute(&b)
            }));
        }
        let mut out = Vec::new();
        for h in handles {
            out.push(h.await.unwrap());
        }
        out
    });
    for r in replies {
        assert_eq!(r, RespFrame::Integer(1));
    }
    for i in 0..n {
        let ret = SIsmember {
            key: b"samekey".to_vec(),
            member: format!("member{}", i).into_bytes(),
        }
        .execute(&backend);
        assert_eq!(ret, RespFrame::Integer(1));
    }
    // A member nobody added is still absent.
    let ret = SIsmember {
        key: b"samekey".to_vec(),
        member: b"outsider".to_vec(),
    }
    .execute(&backend);
    assert_eq!(ret, RespFrame::Integer(0));
}

// Re-adding an existing member reports zero and leaves the set unchanged.
#[test]
fn sadd_existing_member_reports_zero() {
    let backend = Backend::new();
    let first = SAdd {
        key: b"k".to_vec(),
        member: b"m".to_vec(),
    }
    .execute(&backend);
    let second = SAdd {
        key: b"k".to_vec(),
        member: b"m".to_vec(),
    }
    .execute(&backend);
    assert_eq!(first, RespFrame::Integer(1));
    assert_eq!(second, RespFrame::Integer(0));
}

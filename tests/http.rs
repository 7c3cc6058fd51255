use aidb::http::{AccessLog, ResBuiler};

#[test]
fn reply_bodies() {
    let ok = ResBuiler::ok(5u32);
    assert_eq!(ok.code, 200);
    assert_eq!(ok.data, Some(5));
    assert!(ok.message.is_none());
    let e = ResBuiler::ok_with_empty::<u32>();
    assert_eq!(e.code, 200);
    assert!(e.data.is_none());
    let f = ResBuiler::fail::<u32>("boom");
    assert_eq!(f.code, 500);
    assert_eq!(f.message.as_deref(), Some("boom"));
    let (status, g) = ResBuiler::fail_with_status::<u32>(401, 401, "Unauthorized");
    assert_eq!(status, 401);
    assert_eq!(g.code, 401);
    assert_eq!(g.message.as_deref(), Some("Unauthorized"));
}

#[test]
fn remote_ip_choice() {
    assert_eq!(AccessLog::get_remote_ip(Some(0x0a000001), Some(0x7f000001)), 0x0a000001);
    assert_eq!(AccessLog::get_remote_ip(None, Some(0x7f000001)), 0x7f000001);
    assert_eq!(AccessLog::get_remote_ip(None, None), 0);
}

use std::collections::BTreeMap;
use std::sync::{Arc, Mutex};

use rsdb::range::range_page;
use rsdb::session::{Action, Job, ScanStart, Session};
use rsdb::{MultiDB, Packet};

type Store = Arc<Mutex<BTreeMap<Vec<u8>, Vec<u8>>>>;

fn handle(session: &Session<Store>) -> Store {
    session.selected.as_ref().unwrap().1.clone()
}

fn scan(store: &Store, start: ScanStart, limit: usize) -> Vec<(Vec<u8>, Vec<u8>)> {
    let map = store.lock().unwrap();
    let pairs = |(k, v): (&Vec<u8>, &Vec<u8>)| (k.clone(), v.clone());
    match start {
        ScanStart::Start => map.iter().take(limit).map(pairs).collect(),
        ScanStart::End => map.iter().rev().take(limit).map(pairs).collect(),
        ScanStart::Forward(k) => map.range(k..).take(limit).map(pairs).collect(),
        ScanStart::Backward(k) => map.range(..=k).rev().take(limit).map(pairs).collect(),
    }
}

/// Runs one request to its response against an in-memory store per name.
fn run(session: &mut Session<Store>, registry: &Mutex<MultiDB<Store>>, req: Packet) -> Option<Packet> {
    let mut action = session.on_request(req);
    loop {
        action = match action {
            Action::Send(p) => return Some(p),
            Action::Close => return None,
            Action::Attach(name) => {
                let mut reg = registry.lock().unwrap();
                if reg.get_db(&name).is_none() {
                    let fresh: Store = Arc::new(Mutex::new(BTreeMap::new()));
                    reg.attach(&name, fresh);
                }
                let h = reg.get_db(&name).unwrap().clone();
                drop(reg);
                session.on_attached(Ok(h))
            }
            Action::Detach(name) => {
                registry.lock().unwrap().detach(&name);
                session.on_detached(true)
            }
            Action::ListDbs => {
                let names = registry.lock().unwrap().list_db();
                session.on_listed(Some(names))
            }
            Action::Get(k) => {
                let v = handle(session).lock().unwrap().get(&k).cloned();
                session.on_got(Ok(v))
            }
            Action::Put(k, v) => {
                handle(session).lock().unwrap().insert(k, v);
                session.on_stored(Ok(()))
            }
            Action::Remove(k) => {
                handle(session).lock().unwrap().remove(&k);
                session.on_stored(Ok(()))
            }
            Action::Scan(start, limit) => {
                let items = scan(&handle(session), start, limit);
                session.on_scanned(Ok(items))
            }
        }
    }
}

fn b(s: &str) -> Vec<u8> {
    s.as_bytes().to_vec()
}

fn ok() -> Packet {
    Packet::RespOk("Ok.".to_string())
}

fn error(msg: &str) -> Packet {
    Packet::RespError(msg.to_string())
}

fn pairs(items: &[(&str, &str)]) -> Packet {
    let mut v = Vec::new();
    for (k, val) in items {
        v.push(b(k));
        v.push(b(val));
    }
    Packet::RespPairs(v)
}

fn abcd() -> (Session<Store>, Mutex<MultiDB<Store>>) {
    let registry = Mutex::new(MultiDB::new("/data"));
    let mut s = Session::new();
    assert_eq!(run(&mut s, &registry, Packet::CmdUse(b("t"))), Some(ok()));
    let w = vec![b("a"), b("1"), b("b"), b("2"), b("c"), b("3"), b("d"), b("4")];
    assert_eq!(run(&mut s, &registry, Packet::CmdWrite(w)), Some(ok()));
    (s, registry)
}

#[test]
fn range_from_asc_includes_the_boundary() {
    let (mut s, registry) = abcd();
    let r = run(&mut s, &registry, Packet::CmdRangeFromAsc(2, b("b")));
    assert_eq!(r, Some(pairs(&[("b", "2"), ("c", "3")])));
}

#[test]
fn range_from_asc_ex_excludes_the_boundary() {
    let (mut s, registry) = abcd();
    let r = run(&mut s, &registry, Packet::CmdRangeFromAscEx(2, b("b")));
    assert_eq!(r, Some(pairs(&[("c", "3"), ("d", "4")])));
}

#[test]
fn range_from_asc_ex_past_every_key_is_empty() {
    let (mut s, registry) = abcd();
    let r = run(&mut s, &registry, Packet::CmdRangeFromAscEx(2, b("z")));
    assert_eq!(r, Some(Packet::RespPairs(vec![])));
}

#[test]
fn range_from_asc_ex_drops_only_an_exact_match() {
    let (mut s, registry) = abcd();
    let r = run(&mut s, &registry, Packet::CmdRangeFromAscEx(2, b("bb")));
    assert_eq!(r, Some(pairs(&[("c", "3"), ("d", "4")])));
    let r = run(&mut s, &registry, Packet::CmdRangeFromAscEx(2, b("")));
    assert_eq!(r, Some(pairs(&[("a", "1"), ("b", "2")])));
}

#[test]
fn range_desc_and_ends() {
    let (mut s, registry) = abcd();
    let r = run(&mut s, &registry, Packet::CmdRangeFromDesc(2, b("c")));
    assert_eq!(r, Some(pairs(&[("c", "3"), ("b", "2")])));
    let r = run(&mut s, &registry, Packet::CmdRangeFromDescEx(2, b("c")));
    assert_eq!(r, Some(pairs(&[("b", "2"), ("a", "1")])));
    let r = run(&mut s, &registry, Packet::CmdRangeBegin(3));
    assert_eq!(r, Some(pairs(&[("a", "1"), ("b", "2"), ("c", "3")])));
    let r = run(&mut s, &registry, Packet::CmdRangeEnd(2));
    assert_eq!(r, Some(pairs(&[("d", "4"), ("c", "3")])));
    let r = run(&mut s, &registry, Packet::CmdRangeBegin(0));
    assert_eq!(r, Some(Packet::RespPairs(vec![])));
}

#[test]
fn pagination_visits_every_key_once() {
    let registry = Mutex::new(MultiDB::new("/data"));
    let mut s = Session::new();
    run(&mut s, &registry, Packet::CmdUse(b("five")));
    let w = vec![b("k1"), b("1"), b("k2"), b("2"), b("k3"), b("3"), b("k4"), b("4"), b("k5"), b("5")];
    assert_eq!(run(&mut s, &registry, Packet::CmdWrite(w)), Some(ok()));
    let mut seen: Vec<Vec<u8>> = Vec::new();
    let mut req = Packet::CmdRangeBegin(2);
    loop {
        let tokens = match run(&mut s, &registry, req) {
            Some(Packet::RespPairs(t)) => t,
            other => panic!("unexpected {:?}", other),
        };
        if tokens.is_empty() {
            break;
        }
        assert!(tokens.len() <= 4);
        for i in (0..tokens.len()).step_by(2) {
            seen.push(tokens[i].clone());
        }
        req = Packet::CmdRangeFromAscEx(2, seen.last().unwrap().clone());
    }
    assert_eq!(seen, vec![b("k1"), b("k2"), b("k3"), b("k4"), b("k5")]);
}

#[test]
fn detach_leaves_held_handles_valid() {
    let registry = Mutex::new(MultiDB::new("/data"));
    let mut first = Session::new();
    let mut second = Session::new();
    let mut third = Session::new();
    assert_eq!(run(&mut first, &registry, Packet::CmdUse(b("x"))), Some(ok()));
    assert_eq!(run(&mut second, &registry, Packet::CmdDetach(b("x"))), Some(ok()));
    assert_eq!(
        run(&mut second, &registry, Packet::CmdListDb()),
        Some(Packet::RespTokens(vec![]))
    );
    let w = vec![b("k"), b("v")];
    assert_eq!(run(&mut first, &registry, Packet::CmdWrite(w)), Some(ok()));
    assert_eq!(
        run(&mut first, &registry, Packet::CmdRead(vec![b("k")])),
        Some(Packet::RespTokens(vec![b("v")]))
    );
    assert_eq!(run(&mut third, &registry, Packet::CmdUse(b("x"))), Some(ok()));
    assert_eq!(
        run(&mut third, &registry, Packet::CmdListDb()),
        Some(Packet::RespTokens(vec![b("x")]))
    );
    assert!(!Arc::ptr_eq(&handle(&first), &handle(&third)));
}

#[test]
fn write_then_read_reports_missing_as_empty() {
    let registry = Mutex::new(MultiDB::new("/data"));
    let mut s = Session::new();
    run(&mut s, &registry, Packet::CmdUse(b("db")));
    let w = vec![b("k1"), b("v1"), b("k2"), b("v2")];
    assert_eq!(run(&mut s, &registry, Packet::CmdWrite(w)), Some(ok()));
    let r = run(&mut s, &registry, Packet::CmdRead(vec![b("k1"), b("k2"), b("k3")]));
    assert_eq!(r, Some(Packet::RespTokens(vec![b("v1"), b("v2"), b("")])));
}

#[test]
fn writers_on_disjoint_keys_both_land() {
    let registry = Mutex::new(MultiDB::new("/data"));
    let mut one = Session::new();
    let mut two = Session::new();
    run(&mut one, &registry, Packet::CmdUse(b("shared")));
    run(&mut two, &registry, Packet::CmdUse(b("shared")));
    for i in 0..5 {
        let w1 = vec![format!("a{i}").into_bytes(), b("one")];
        let w2 = vec![format!("b{i}").into_bytes(), b("two")];
        assert_eq!(run(&mut one, &registry, Packet::CmdWrite(w1)), Some(ok()));
        assert_eq!(run(&mut two, &registry, Packet::CmdWrite(w2)), Some(ok()));
    }
    let r = run(&mut one, &registry, Packet::CmdRead(vec![b("a4"), b("b4")]));
    assert_eq!(r, Some(Packet::RespTokens(vec![b("one"), b("two")])));
    let r = run(&mut two, &registry, Packet::CmdRead(vec![b("a0"), b("b0")]));
    assert_eq!(r, Some(Packet::RespTokens(vec![b("one"), b("two")])));
}

#[test]
fn data_requests_need_a_selected_database() {
    let registry = Mutex::new(MultiDB::new("/data"));
    let mut s: Session<Store> = Session::new();
    let no_db = Some(error("no db selected"));
    assert_eq!(run(&mut s, &registry, Packet::CmdRead(vec![b("k")])), no_db);
    assert_eq!(run(&mut s, &registry, Packet::CmdWrite(vec![b("k"), b("v")])), no_db);
    assert_eq!(run(&mut s, &registry, Packet::CmdDelete(vec![b("k")])), no_db);
    assert_eq!(run(&mut s, &registry, Packet::CmdCurrentDB()), no_db);
    assert_eq!(run(&mut s, &registry, Packet::CmdRangeBegin(1)), no_db);
    assert_eq!(run(&mut s, &registry, Packet::CmdRangeFromDescEx(1, b("k"))), no_db);
}

#[test]
fn responses_sent_as_requests_are_unknown_commands() {
    let registry = Mutex::new(MultiDB::new("/data"));
    let mut s: Session<Store> = Session::new();
    let r = run(&mut s, &registry, Packet::RespOk("hi".to_string()));
    assert_eq!(r, Some(error("unknown command")));
    let r = run(&mut s, &registry, Packet::RespPairs(vec![]));
    assert_eq!(r, Some(error("unknown command")));
}

#[test]
fn current_db_names_the_selection_and_detach_clears_it() {
    let registry = Mutex::new(MultiDB::new("/data"));
    let mut s = Session::new();
    run(&mut s, &registry, Packet::CmdUse(b("alpha")));
    run(&mut s, &registry, Packet::CmdUse(b("beta")));
    assert_eq!(
        run(&mut s, &registry, Packet::CmdCurrentDB()),
        Some(Packet::RespToken(b("beta")))
    );
    assert_eq!(run(&mut s, &registry, Packet::CmdDetach(b("alpha"))), Some(ok()));
    assert_eq!(
        run(&mut s, &registry, Packet::CmdCurrentDB()),
        Some(Packet::RespToken(b("beta")))
    );
    assert_eq!(run(&mut s, &registry, Packet::CmdDetach(b("beta"))), Some(ok()));
    assert_eq!(run(&mut s, &registry, Packet::CmdCurrentDB()), Some(error("no db selected")));
    assert_eq!(run(&mut s, &registry, Packet::CmdDetach(b("nothing"))), Some(ok()));
}

#[test]
fn use_with_a_name_that_is_not_utf8_fails_and_keeps_the_selection() {
    let registry = Mutex::new(MultiDB::new("/data"));
    let mut s = Session::new();
    run(&mut s, &registry, Packet::CmdUse(b("keep")));
    let r = run(&mut s, &registry, Packet::CmdUse(vec![0xff, 0xfe]));
    assert_eq!(r, Some(error("invalid database name")));
    assert_eq!(
        run(&mut s, &registry, Packet::CmdCurrentDB()),
        Some(Packet::RespToken(b("keep")))
    );
}

#[test]
fn failed_attach_reports_the_cause() {
    let mut s: Session<Store> = Session::new();
    let a = s.on_request(Packet::CmdUse(b("locked")));
    assert!(matches!(a, Action::Attach(ref n) if n == "locked"));
    match s.on_attached(Err("IO error: permission denied".to_string())) {
        Action::Send(p) => assert_eq!(p, error("IO error: permission denied")),
        _ => panic!("expected a response"),
    }
    assert!(s.selected.is_none());
    assert!(matches!(s.job, Job::Idle));
}

#[test]
fn write_stops_at_the_first_failure() {
    let mut s: Session<Store> = Session::new();
    s.selected = Some(("db".to_string(), Arc::new(Mutex::new(BTreeMap::new()))));
    let w = vec![b("k1"), b("v1"), b("k2"), b("v2"), b("k3"), b("v3")];
    assert!(matches!(s.on_request(Packet::CmdWrite(w)), Action::Put(ref k, _) if k == b"k1"));
    assert!(matches!(s.on_stored(Ok(())), Action::Put(ref k, ref v) if k == b"k2" && v == b"v2"));
    match s.on_stored(Err("disk full".to_string())) {
        Action::Send(p) => assert_eq!(p, error("disk full")),
        _ => panic!("expected a response"),
    }
    assert!(matches!(s.job, Job::Idle));
}

#[test]
fn write_drops_a_last_unpaired_token() {
    let mut s: Session<Store> = Session::new();
    s.selected = Some(("db".to_string(), Arc::new(Mutex::new(BTreeMap::new()))));
    let w = vec![b("k1"), b("v1"), b("dangling")];
    assert!(matches!(s.on_request(Packet::CmdWrite(w)), Action::Put(ref k, _) if k == b"k1"));
    match s.on_stored(Ok(())) {
        Action::Send(p) => assert_eq!(p, ok()),
        _ => panic!("expected a response"),
    }
}

#[test]
fn exclusive_scans_pull_one_more_than_the_page() {
    let mut s: Session<Store> = Session::new();
    s.selected = Some(("db".to_string(), Arc::new(Mutex::new(BTreeMap::new()))));
    assert!(matches!(
        s.on_request(Packet::CmdRangeFromAscEx(7, b("k"))),
        Action::Scan(ScanStart::Forward(ref k), 8) if k == b"k"
    ));
    assert!(matches!(
        s.on_request(Packet::CmdRangeFromDesc(7, b("k"))),
        Action::Scan(ScanStart::Backward(ref k), 7) if k == b"k"
    ));
}

#[test]
fn delete_removes_each_key() {
    let (mut s, registry) = abcd();
    let r = run(&mut s, &registry, Packet::CmdDelete(vec![b("a"), b("c")]));
    assert_eq!(r, Some(ok()));
    let r = run(&mut s, &registry, Packet::CmdRead(vec![b("a"), b("b"), b("c")]));
    assert_eq!(r, Some(Packet::RespTokens(vec![b(""), b("2"), b("")])));
}

#[test]
fn lock_failures_are_reported() {
    let mut s: Session<Store> = Session::new();
    assert!(matches!(s.on_request(Packet::CmdListDb()), Action::ListDbs));
    match s.on_listed(None) {
        Action::Send(p) => assert_eq!(p, error("get lock failed")),
        _ => panic!("expected a response"),
    }
    assert!(matches!(s.on_request(Packet::CmdDetach(b("x"))), Action::Detach(_)));
    match s.on_detached(false) {
        Action::Send(p) => assert_eq!(p, error("get lock failed")),
        _ => panic!("expected a response"),
    }
}

#[test]
fn events_out_of_turn_close_the_connection() {
    let mut s: Session<Store> = Session::new();
    assert!(matches!(s.on_got(Ok(None)), Action::Close));
    assert!(matches!(s.on_stored(Ok(())), Action::Close));
    assert!(matches!(s.on_scanned(Ok(vec![])), Action::Close));
}

#[test]
fn range_page_keeps_at_most_a_page() {
    let items = vec![(b("a"), b("1")), (b("b"), b("2")), (b("c"), b("3"))];
    assert_eq!(range_page(&items, b"a", 2, true), vec![b("b"), b("2"), b("c"), b("3")]);
    assert_eq!(range_page(&items, b"a", 2, false), vec![b("a"), b("1"), b("b"), b("2")]);
    assert_eq!(range_page(&items, b"x", 1, true), vec![b("a"), b("1")]);
    assert_eq!(range_page(&items, b"b", 5, true), items.iter().flat_map(|(k, v)| vec![k.clone(), v.clone()]).collect::<Vec<_>>());
    assert_eq!(range_page(&vec![], b"a", 5, true), Vec::<Vec<u8>>::new());
}

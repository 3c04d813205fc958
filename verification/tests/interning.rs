use lexfront::intern::IntStrManager;
use lexfront::intern::Manager;

#[test]
fn intern_lookup_round_trip() {
    let mut m = Manager::new();
    let a = m.intern(String::from("alpha"));
    let b = m.intern(String::from("beta"));
    assert_eq!(m.lookup(a), String::from("alpha"));
    assert_eq!(m.lookup(b), String::from("beta"));
}

#[test]
fn intern_is_deterministic() {
    let mut m = Manager::new();
    let a1 = m.intern(String::from("alpha"));
    let b = m.intern(String::from("beta"));
    let a2 = m.intern(String::from("alpha"));
    assert_eq!(a1, a2);
    assert_ne!(a1, b);
    assert_eq!(m.lookup(a2), String::from("alpha"));
}

#[test]
fn intern_empty_and_unicode_strings() {
    let mut m = Manager::new();
    let e = m.intern(String::from(""));
    let u = m.intern(String::from("héllo"));
    assert_eq!(m.lookup(e), String::from(""));
    assert_eq!(m.lookup(u), String::from("héllo"));
    assert_ne!(e, u);
}

#[test]
fn int_str_manager_round_trip() {
    let mut m = IntStrManager::new();
    let i0 = m.insert(String::from("x"));
    let i1 = m.insert(String::from("y"));
    let i0b = m.insert(String::from("x"));
    assert_eq!(i0, 0);
    assert_eq!(i1, 1);
    assert_eq!(i0, i0b);
    assert_eq!(m.lookup(i0), String::from("x"));
    assert_eq!(m.lookup(i1), String::from("y"));
}

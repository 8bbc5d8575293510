use metallirc::modes::{letter_for_membership, MembershipMode, Modes};

#[test]
fn modestring_round_trip() {
    let mut m = Modes::new();
    assert!(m.none());
    assert_eq!(m.to_modestring(), "");
    m.set('s', true);
    m.set('n', true);
    m.set('A', true);
    m.set('1', true);
    assert!(!m.none());
    assert_eq!(m.to_modestring(), "+Ans");
    let back = Modes::from_modestring(&m.to_modestring());
    for c in "abcdefghijklmnopqrstuvwxyzABCDEFGHIJKLMNOPQRSTUVWXYZ".chars() {
        assert_eq!(back.get(c), m.get(c));
    }
    m.set('s', false);
    assert_eq!(m.to_modestring(), "+An");
    assert_eq!(Modes::index_of('a'), Some(0));
    assert_eq!(Modes::index_of('Z'), Some(51));
    assert_eq!(Modes::index_of('#'), None);
}

#[test]
fn membership_order() {
    let none = MembershipMode::empty();
    let v = MembershipMode::voice();
    let o = MembershipMode::op();
    let both = MembershipMode { voice: true, op: true };
    assert!(o.is_at_least(&v));
    assert!(!v.is_at_least(&o));
    assert!(v.is_at_least(&none));
    assert!(both.is_at_least(&o));
    assert_eq!(both.best_mode(), o);
    assert_eq!(v.best_mode(), v);
    assert_eq!(both.prefix(), Some('@'));
    assert_eq!(v.prefix(), Some('+'));
    assert_eq!(none.prefix(), None);
    assert_eq!(letter_for_membership(&v), Some('+'));
    assert_eq!(MembershipMode::from_char('o'), Some(o));
    assert_eq!(MembershipMode::from_char('x'), None);
}

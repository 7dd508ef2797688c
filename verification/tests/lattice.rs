use core::cmp::Ordering;
use read_write_set::access::Access;
use read_write_set::domain::{AbstractDomain, JoinResult};

fn all() -> Vec<Access> {
    vec![Access::Borrow, Access::Read, Access::Write, Access::ReadWriteBorrow]
}

fn joined(a: Access, b: Access) -> Access {
    let mut x = a;
    x.join(&b);
    x
}

#[test]
fn join_is_idempotent() {
    for a in all() {
        assert_eq!(joined(a, a), a);
    }
}

#[test]
fn join_is_commutative() {
    for a in all() {
        for b in all() {
            assert_eq!(joined(a, b), joined(b, a));
        }
    }
}

#[test]
fn join_is_associative() {
    for a in all() {
        for b in all() {
            for c in all() {
                assert_eq!(joined(joined(a, b), c), joined(a, joined(b, c)));
            }
        }
    }
}

#[test]
fn borrow_is_neutral() {
    for x in all() {
        assert_eq!(joined(Access::Borrow, x), x);
        assert_eq!(joined(x, Access::Borrow), x);
    }
}

#[test]
fn read_join_write_is_top() {
    assert_eq!(joined(Access::Read, Access::Write), Access::ReadWriteBorrow);
    assert_eq!(joined(Access::Write, Access::Read), Access::ReadWriteBorrow);
}

#[test]
fn top_absorbs() {
    for x in all() {
        assert_eq!(joined(Access::ReadWriteBorrow, x), Access::ReadWriteBorrow);
        assert_eq!(joined(x, Access::ReadWriteBorrow), Access::ReadWriteBorrow);
    }
}

#[test]
fn join_reports_change() {
    let mut a = Access::Borrow;
    assert_eq!(a.join(&Access::Read), JoinResult::Changed);
    assert_eq!(a, Access::Read);
    assert_eq!(a.join(&Access::Read), JoinResult::Unchanged);
    assert_eq!(a.join(&Access::Borrow), JoinResult::Unchanged);
    assert_eq!(a, Access::Read);
    assert_eq!(a.join(&Access::Write), JoinResult::Changed);
    assert_eq!(a, Access::ReadWriteBorrow);
    assert_eq!(a.join(&Access::Write), JoinResult::Unchanged);
}

#[test]
fn join_result_combines() {
    assert_eq!(JoinResult::Unchanged.combine(JoinResult::Unchanged), JoinResult::Unchanged);
    assert_eq!(JoinResult::Unchanged.combine(JoinResult::Changed), JoinResult::Changed);
    assert_eq!(JoinResult::Changed.combine(JoinResult::Unchanged), JoinResult::Changed);
    assert_eq!(JoinResult::Changed.combine(JoinResult::Changed), JoinResult::Changed);
}

#[test]
fn order_of_the_lattice() {
    assert_eq!(Access::Borrow.partial_cmp(&Access::Borrow), Some(Ordering::Equal));
    assert_eq!(Access::Borrow.partial_cmp(&Access::Read), Some(Ordering::Less));
    assert_eq!(Access::Borrow.partial_cmp(&Access::Write), Some(Ordering::Less));
    assert_eq!(Access::Borrow.partial_cmp(&Access::ReadWriteBorrow), Some(Ordering::Less));
    assert_eq!(Access::Read.partial_cmp(&Access::Borrow), Some(Ordering::Greater));
    assert_eq!(Access::Read.partial_cmp(&Access::Write), None);
    assert_eq!(Access::Write.partial_cmp(&Access::Read), None);
    assert_eq!(Access::Read.partial_cmp(&Access::ReadWriteBorrow), Some(Ordering::Less));
    assert_eq!(Access::ReadWriteBorrow.partial_cmp(&Access::Write), Some(Ordering::Greater));
    assert!(Access::Borrow < Access::Write);
    assert!(!(Access::Read < Access::Write));
    assert!(!(Access::Write < Access::Read));
}

#[test]
fn subsumption_agrees_with_join() {
    for a in all() {
        for b in all() {
            assert_eq!(a.subsumed_by(&b), joined(a, b) == b);
        }
    }
}

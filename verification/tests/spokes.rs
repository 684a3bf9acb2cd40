use cherenkov::{NovaError, SpokeTable};

fn counting(n: usize) -> SpokeTable<u32, char> {
    let letters = ['a', 'b', 'c', 'd', 'e', 'f', 'g'];
    SpokeTable::generate(n, 0u32, |k: u32| (k + 1, 10 * k, letters[k as usize % 7])).unwrap()
}

#[test]
fn a_table_has_as_many_spokes_as_asked_for() {
    for n in [1usize, 2, 3, 4, 7, 100] {
        let table = counting(n);
        assert_eq!(table.len(), n);
        assert_eq!(table.brightness().len(), n);
        assert_eq!(table.colors().len(), n);
    }
}

#[test]
fn a_table_without_spokes_is_refused() {
    let r: Result<SpokeTable<u32, char>, NovaError> =
        SpokeTable::generate(0, 0u32, |k: u32| (k + 1, k, 'x'));
    assert_eq!(r.err(), Some(NovaError::NoSpokes));
}

#[test]
fn each_step_starts_where_the_one_before_ended() {
    // The state doubles and adds one at every step: 1, 3, 7, 15, 31.
    let table: SpokeTable<u64, u64> =
        SpokeTable::generate(5, 1u64, |s: u64| (2 * s + 1, s, s * s)).unwrap();
    assert_eq!(table.brightness(), &[1, 3, 7, 15, 31]);
    assert_eq!(table.colors(), &[1, 9, 49, 225, 961]);
}

#[test]
fn spokes_are_read_around_the_circle() {
    let table = counting(4);
    assert_eq!(table.spoke(0), (&0, &'a'));
    assert_eq!(table.spoke(3), (&30, &'d'));
    assert_eq!(table.spoke(4), (&0, &'a'));
    assert_eq!(table.spoke(9), (&10, &'b'));
    assert_eq!(table.spoke(usize::MAX), table.spoke(usize::MAX % 4));
}

#[test]
fn the_first_spoke_follows_the_last() {
    let table = counting(4);
    assert_eq!(table.successor(0), 1);
    assert_eq!(table.successor(2), 3);
    assert_eq!(table.successor(3), 0);
    assert_eq!(table.successor(4), 1);
    assert_eq!(table.successor(7), 0);
    // usize::MAX is 3 modulo 4 on machines of 32 and of 64 bits.
    assert_eq!(table.successor(usize::MAX), 0);
}

#[test]
fn a_span_is_a_spoke_and_the_next() {
    let table = counting(3);
    assert_eq!(table.span(0), ((&0, &'a'), (&10, &'b')));
    assert_eq!(table.span(1), ((&10, &'b'), (&20, &'c')));
    assert_eq!(table.span(2), ((&20, &'c'), (&0, &'a')));
    assert_eq!(table.span(3), ((&0, &'a'), (&10, &'b')));
}

#[test]
fn a_single_spoke_is_its_own_neighbour() {
    let table = counting(1);
    assert_eq!(table.successor(0), 0);
    assert_eq!(table.successor(5), 0);
    assert_eq!(table.span(0), ((&0, &'a'), (&0, &'a')));
    assert_eq!(table.span(12345), ((&0, &'a'), (&0, &'a')));
}

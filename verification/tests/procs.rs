use ktop::procs::{bytes_less, cpu_key_of_bits, precedes, ProcInfo, SortBy};

#[test]
fn zeros_of_either_sign_tie() {
    assert_eq!(cpu_key_of_bits((-0.0f32).to_bits()), cpu_key_of_bits(0.0f32.to_bits()));
    let neg = ProcInfo { pid: 1, name: "a".to_string(), cpu_bits: (-0.0f32).to_bits(), mem_mb: 0 };
    let pos = ProcInfo { pid: 2, name: "b".to_string(), cpu_bits: 0.0f32.to_bits(), mem_mb: 0 };
    for sort in [SortBy::CpuDesc, SortBy::CpuAsc] {
        assert!(!precedes(&neg, &pos, sort));
        assert!(!precedes(&pos, &neg, sort));
    }
}

#[test]
fn cpu_key_follows_float_order() {
    let values = [f32::NEG_INFINITY, -100.0, -1.5, -1e-40, -0.0, 1e-40, 0.5, 12.25, 100.0, f32::INFINITY];
    for w in values.windows(2) {
        assert!(cpu_key_of_bits(w[0].to_bits()) < cpu_key_of_bits(w[1].to_bits()), "{} < {}", w[0], w[1]);
    }
}

#[test]
fn bytes_less_is_lexicographic() {
    assert!(bytes_less(b"", b"a"));
    assert!(!bytes_less(b"a", b""));
    assert!(bytes_less(b"a", b"ab"));
    assert!(bytes_less(b"ab", b"b"));
    assert!(!bytes_less(b"abc", b"abc"));
    assert!(bytes_less(b"Z", b"a"));
}

#[test]
fn precedes_by_each_order() {
    let a = ProcInfo { pid: 1, name: "a".to_string(), cpu_bits: 5.0f32.to_bits(), mem_mb: 10 };
    let b = ProcInfo { pid: 2, name: "b".to_string(), cpu_bits: 1.0f32.to_bits(), mem_mb: 20 };
    assert!(precedes(&a, &b, SortBy::CpuDesc));
    assert!(precedes(&b, &a, SortBy::CpuAsc));
    assert!(precedes(&b, &a, SortBy::MemDesc));
    assert!(precedes(&a, &b, SortBy::MemAsc));
    assert!(precedes(&a, &b, SortBy::Pid));
    assert!(precedes(&a, &b, SortBy::Name));
    assert!(!precedes(&a, &a, SortBy::Name));
}

#[test]
fn default_sort_is_cpu_descending() {
    assert!(SortBy::default() == SortBy::CpuDesc);
}

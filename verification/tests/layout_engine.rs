use tokau::layout::{Layout, Resolved};
use tokau::TokauError;

#[test]
fn test_layout_offsets_and_reserved() {
    // Kinds: Ctrl (5), Op (4), Text (1000), composed in that order with a
    // dynamic tail.
    let layout = Layout::new(vec![5, 4, 1000], true).unwrap();
    assert_eq!(layout.num_kinds(), 3);
    assert_eq!(layout.offset_of(0), 0);
    assert_eq!(layout.offset_of(1), 5);
    assert_eq!(layout.offset_of(2), 9);
    assert_eq!(layout.reserved(), 1009);
    assert_eq!(layout.count_of(0), 5);
    assert_eq!(layout.count_of(1), 4);
    assert_eq!(layout.count_of(2), 1000);
    assert!(layout.has_dynamic());
}

#[test]
fn test_layout_decode_scenario() {
    let layout = Layout::new(vec![5, 4, 1000], true).unwrap();
    assert_eq!(layout.decode(5), Ok(Resolved::Member { kind: 1, local: 0 }));
    assert_eq!(layout.decode(9), Ok(Resolved::Member { kind: 2, local: 0 }));
    assert_eq!(layout.decode(1009), Ok(Resolved::Dynamic { offset: 0 }));
    assert_eq!(layout.decode(2000), Ok(Resolved::Dynamic { offset: 991 }));

    // Inside each kind's sub-range
    assert_eq!(layout.decode(0), Ok(Resolved::Member { kind: 0, local: 0 }));
    assert_eq!(layout.decode(4), Ok(Resolved::Member { kind: 0, local: 4 }));
    assert_eq!(layout.decode(8), Ok(Resolved::Member { kind: 1, local: 3 }));
    assert_eq!(
        layout.decode(1008),
        Ok(Resolved::Member {
            kind: 2,
            local: 999
        })
    );
}

#[test]
fn test_layout_empty_kind() {
    // A kind with count 0 inserted between two nonzero kinds contributes an
    // offset equal to its predecessor's end and never matches any ID.
    let layout = Layout::new(vec![2, 0, 3], false).unwrap();
    assert_eq!(layout.offset_of(0), 0);
    assert_eq!(layout.offset_of(1), 2); // predecessor's end
    assert_eq!(layout.offset_of(2), 2); // the empty kind adds nothing
    assert_eq!(layout.reserved(), 5);

    for id in 0..5 {
        match layout.decode(id).unwrap() {
            Resolved::Member { kind, .. } => assert_ne!(kind, 1),
            Resolved::Dynamic { .. } => panic!("no dynamic tail in this layout"),
        }
    }
    assert_eq!(layout.decode(1), Ok(Resolved::Member { kind: 0, local: 1 }));
    assert_eq!(layout.decode(2), Ok(Resolved::Member { kind: 2, local: 0 }));
}

#[test]
fn test_layout_coverage_and_disjointness() {
    let layout = Layout::new(vec![5, 4, 1000], true).unwrap();

    // Every reserved ID belongs to exactly one kind; decode finds it, and
    // re-encoding the kind and local value gives the same ID back.
    for id in 0..1009u32 {
        match layout.decode(id).unwrap() {
            Resolved::Member { kind, local } => {
                assert!(local < layout.count_of(kind));
                assert_eq!(layout.encode(kind, local), id);
            }
            Resolved::Dynamic { .. } => panic!("reserved ID decoded as dynamic"),
        }
    }

    // Membership in one kind's sub-range excludes every other kind's.
    for id in 0..1009u32 {
        let mut hits = 0;
        for kind in 0..layout.num_kinds() {
            let start = layout.offset_of(kind);
            if id >= start && id - start < layout.count_of(kind) {
                hits += 1;
            }
        }
        assert_eq!(hits, 1);
    }
}

#[test]
fn test_layout_boundary() {
    // For a layout with reserved size R and no dynamic tail, R - 1 decodes
    // and R fails with OutOfRange { value: R, max: R }.
    let layout = Layout::new(vec![3, 7], false).unwrap();
    assert_eq!(layout.reserved(), 10);
    assert_eq!(layout.decode(9), Ok(Resolved::Member { kind: 1, local: 6 }));
    assert_eq!(
        layout.decode(10),
        Err(TokauError::OutOfRange { value: 10, max: 10 })
    );
    assert_eq!(
        layout.decode(5000),
        Err(TokauError::OutOfRange {
            value: 5000,
            max: 10
        })
    );
}

#[test]
fn test_layout_encode_round_trip() {
    let layout = Layout::new(vec![5, 4, 1000], true).unwrap();
    assert_eq!(layout.encode(0, 3), 3);
    assert_eq!(layout.encode(1, 0), 5);
    assert_eq!(layout.encode(2, 999), 1008);
    assert_eq!(layout.encode_dynamic(0), 1009);
    assert_eq!(layout.encode_dynamic(991), 2000);

    // decode(encode(kind, local)) gives the kind and local value back
    for (kind, local) in [(0u32, 0u32), (0, 4), (1, 0), (1, 3), (2, 0), (2, 999)] {
        let id = layout.encode(kind as usize, local);
        assert_eq!(
            layout.decode(id),
            Ok(Resolved::Member {
                kind: kind as usize,
                local
            })
        );
    }

    // remainder(encode_dynamic(offset)) gives the offset back
    for offset in [0u32, 1, 991, 100000] {
        let id = layout.encode_dynamic(offset);
        assert_eq!(layout.remainder(id), Some(offset));
    }
}

#[test]
fn test_layout_remainder_and_is_reserved() {
    let layout = Layout::new(vec![5, 4, 1000], true).unwrap();
    assert!(layout.is_reserved(0));
    assert!(layout.is_reserved(1008));
    assert!(!layout.is_reserved(1009));
    assert!(!layout.is_reserved(u32::MAX));
    assert_eq!(layout.remainder(1008), None);
    assert_eq!(layout.remainder(1009), Some(0));
    assert_eq!(layout.remainder(1509), Some(500));
}

#[test]
fn test_layout_overflow_is_rejected() {
    // A layout whose reserved span does not fit in u32 cannot be composed.
    assert!(Layout::new(vec![u32::MAX, 1], false).is_none());
    assert!(Layout::new(vec![u32::MAX - 1, 1, 1], true).is_none());

    // The largest span that fits is accepted.
    let layout = Layout::new(vec![u32::MAX - 1, 1], false).unwrap();
    assert_eq!(layout.reserved(), u32::MAX);

    let exact = Layout::new(vec![u32::MAX], false).unwrap();
    assert_eq!(exact.reserved(), u32::MAX);
}

#[test]
fn test_layout_empty_layout() {
    // A layout of no kinds reserves nothing; with a dynamic tail it absorbs
    // every ID.
    let layout = Layout::new(vec![], true).unwrap();
    assert_eq!(layout.num_kinds(), 0);
    assert_eq!(layout.reserved(), 0);
    assert_eq!(layout.decode(0), Ok(Resolved::Dynamic { offset: 0 }));
    assert_eq!(
        layout.decode(u32::MAX),
        Ok(Resolved::Dynamic { offset: u32::MAX })
    );

    // Without the tail every ID is out of range.
    let closed = Layout::new(vec![], false).unwrap();
    assert_eq!(
        closed.decode(0),
        Err(TokauError::OutOfRange { value: 0, max: 0 })
    );
}

#[test]
fn test_layout_classify() {
    let layout = Layout::new(vec![5, 4, 1000], true).unwrap();
    let ids: Vec<u32> = vec![0, 5, 9, 1008, 1009, 2000];
    let results = layout.classify(&ids);
    assert_eq!(
        results,
        vec![
            Ok(Resolved::Member { kind: 0, local: 0 }),
            Ok(Resolved::Member { kind: 1, local: 0 }),
            Ok(Resolved::Member { kind: 2, local: 0 }),
            Ok(Resolved::Member {
                kind: 2,
                local: 999
            }),
            Ok(Resolved::Dynamic { offset: 0 }),
            Ok(Resolved::Dynamic { offset: 991 }),
        ]
    );

    // Without a dynamic tail the IDs past the reserved span fail, and the
    // other elements are unaffected.
    let closed = Layout::new(vec![5, 4, 1000], false).unwrap();
    let results = closed.classify(&ids);
    assert_eq!(
        results[4],
        Err(TokauError::OutOfRange {
            value: 1009,
            max: 1009
        })
    );
    assert_eq!(results[0], Ok(Resolved::Member { kind: 0, local: 0 }));
}

#[test]
fn test_layout_filter_kind_idempotent() {
    let layout = Layout::new(vec![5, 4, 1000], true).unwrap();
    let ids: Vec<u32> = vec![0, 5, 6, 7, 10, 50, 1010, 4, 8, 9];

    // Filtering keeps exactly the IDs of the kind, in order.
    let once = layout.filter_kind(1, &ids);
    assert_eq!(once, vec![5, 6, 7, 8]);

    // Filtering a second time changes nothing.
    let twice = layout.filter_kind(1, &once);
    assert_eq!(twice, once);

    // The local values of the same IDs.
    let locals = layout.filter_locals(1, &ids);
    assert_eq!(locals, vec![0, 1, 2, 3]);

    // An empty kind matches nothing.
    let empty_layout = Layout::new(vec![2, 0, 3], false).unwrap();
    let none = empty_layout.filter_kind(1, &ids);
    assert_eq!(none, Vec::<u32>::new());
}

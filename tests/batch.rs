use mail_archiver::batch::{split_batches, MAX_UIDS};

fn ids(n: u32) -> Vec<u32> {
    (1..=n).collect()
}

fn check(n: u32) {
    let uids = ids(n);
    let batches = split_batches(&uids);
    let n = n as usize;
    assert_eq!(batches.len(), (n + 255) / 256);
    for (i, b) in batches.iter().enumerate() {
        assert!(!b.is_empty());
        if i + 1 < batches.len() {
            assert_eq!(b.len(), MAX_UIDS);
        }
    }
    if n > 0 {
        let last = batches.last().unwrap().len();
        assert_eq!(last, if n % 256 == 0 { 256 } else { n % 256 });
    }
    let joined: Vec<u32> = batches.concat();
    assert_eq!(joined, uids);
}

#[test]
fn no_identifiers_no_batches() {
    assert!(split_batches(&[]).is_empty());
    check(0);
}

#[test]
fn batch_counts_and_sizes() {
    for n in [1, 2, 255, 256, 257, 511, 512, 513, 1000] {
        check(n);
    }
}

#[test]
fn remainder_batch_is_last() {
    let batches = split_batches(&ids(600));
    assert_eq!(batches.len(), 3);
    assert_eq!(batches[0].len(), 256);
    assert_eq!(batches[1].len(), 256);
    assert_eq!(batches[2], (513..=600).collect::<Vec<u32>>());
}

use ullis::data::EncodedParts;
use ullis::feed::{EndOfFile, TokenFeed};
use ullis::random::{rng_from_seed, shuffled};

#[test]
fn a_long_prompt_never_yields_an_unsupervised_sequence() {
    let parts = EncodedParts::closed(vec![5; 900], vec![6; 900], vec![7; 20], 2);
    let mut feed = TokenFeed::new(32, 32, 2);
    let mut rng = rng_from_seed(1);
    feed.begin_refill();
    let windows = feed.add_record(&parts, &mut rng);
    assert!(!windows.is_empty());
    assert!(feed.lines_seen() > 0);
    let seq = feed.take_seq().unwrap();
    assert_eq!(seq.x.len(), 32);
    assert_eq!(seq.y.len(), 32);
    assert!(seq.loss_mask.iter().filter(|&&m| m != 0).count() > 0);
    for i in 1..32 {
        assert_eq!(seq.x[i], seq.y[i - 1]);
    }
}

#[test]
fn an_empty_file_is_found_out() {
    let mut feed = TokenFeed::new(8, 8, 2);
    feed.begin_refill();
    assert!(feed.wants_more());
    assert!(feed.take_seq().is_none());
    let mut end = feed.at_end_of_file();
    for _ in 0..2 {
        if matches!(end, EndOfFile::Rewind) {
            end = feed.at_end_of_file();
        }
    }
    assert!(!matches!(end, EndOfFile::Rewind));
}

#[test]
fn a_shuffle_keeps_every_entry_and_follows_its_seed() {
    let mut first: Vec<u32> = (0..200).collect();
    let mut rng = rng_from_seed(7);
    shuffled(&mut first, &mut rng);
    assert_ne!(first, (0..200).collect::<Vec<u32>>());
    let mut sorted = first.clone();
    sorted.sort();
    assert_eq!(sorted, (0..200).collect::<Vec<u32>>());
    let mut again: Vec<u32> = (0..200).collect();
    let mut same = rng_from_seed(7);
    shuffled(&mut again, &mut same);
    assert_eq!(again, first);
    let mut other: Vec<u32> = (0..200).collect();
    let mut differs = rng_from_seed(8);
    shuffled(&mut other, &mut differs);
    assert_ne!(other, first);
}

#[test]
fn the_mask_may_be_kept_to_the_output() {
    let parts = EncodedParts::closed(vec![5, 5], vec![6, 6], vec![7], 2);
    let mut rng = rng_from_seed(1);
    let mut feed = TokenFeed::new(8, 8, 2);
    let windows = feed.add_record(&parts, &mut rng);
    assert_eq!(windows, vec![(vec![5, 5, 6, 6, 7, 2], vec![0, 0, 1, 1, 1, 1])]);
    feed.set_mask_output(true);
    let windows = feed.add_record(&parts, &mut rng);
    assert_eq!(windows, vec![(vec![5, 5, 6, 6, 7, 2], vec![0, 0, 0, 0, 1, 1])]);
}

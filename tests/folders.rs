use mail_archiver::folders::{EnsureEvent, EnsureStep, FolderCache, FolderError};

#[test]
fn second_ensure_is_a_cache_hit() {
    let mut cache = FolderCache::new();
    let mut lists = 0;
    let mut creates = 0;
    for _ in 0..2 {
        let mut event = EnsureEvent::Start;
        loop {
            match cache.ensure_folder_step(2019, event).unwrap() {
                EnsureStep::Done => break,
                EnsureStep::List(name) => {
                    assert_eq!(name, "Archives/2019");
                    lists += 1;
                    event = EnsureEvent::Listed(0);
                }
                EnsureStep::Create(name) => {
                    assert_eq!(name, "Archives/2019");
                    creates += 1;
                    event = EnsureEvent::Created(true);
                }
            }
        }
    }
    assert_eq!(lists, 1);
    assert_eq!(creates, 1);
    assert!(cache.contains(2019));
}

#[test]
fn existing_folder_is_cached_without_create() {
    let mut cache = FolderCache::new();
    assert_eq!(
        cache.ensure_folder_step(2018, EnsureEvent::Start),
        Ok(EnsureStep::List("Archives/2018".to_string()))
    );
    assert_eq!(cache.ensure_folder_step(2018, EnsureEvent::Listed(1)), Ok(EnsureStep::Done));
    assert!(cache.contains(2018));
    assert_eq!(cache.ensure_folder_step(2018, EnsureEvent::Start), Ok(EnsureStep::Done));
}

#[test]
fn two_listed_folders_is_a_protocol_violation() {
    let mut cache = FolderCache::new();
    assert_eq!(
        cache.ensure_folder_step(2020, EnsureEvent::Start),
        Ok(EnsureStep::List("Archives/2020".to_string()))
    );
    assert_eq!(
        cache.ensure_folder_step(2020, EnsureEvent::Listed(2)),
        Err(FolderError::ProtocolInvariantViolation)
    );
    assert!(!cache.contains(2020));
}

#[test]
fn refused_create_is_not_cached() {
    let mut cache = FolderCache::new();
    assert_eq!(
        cache.ensure_folder_step(2017, EnsureEvent::Listed(0)),
        Ok(EnsureStep::Create("Archives/2017".to_string()))
    );
    assert_eq!(
        cache.ensure_folder_step(2017, EnsureEvent::Created(false)),
        Err(FolderError::FolderCreateError)
    );
    assert!(!cache.contains(2017));
    assert_eq!(
        cache.ensure_folder_step(2017, EnsureEvent::Start),
        Ok(EnsureStep::List("Archives/2017".to_string()))
    );
}

#[test]
fn cache_keeps_other_years_apart() {
    let mut cache = FolderCache::new();
    assert_eq!(cache.ensure_folder_step(2016, EnsureEvent::Created(true)), Ok(EnsureStep::Done));
    assert!(cache.contains(2016));
    assert!(!cache.contains(2015));
    assert_eq!(cache.ensure_folder_step(2016, EnsureEvent::Created(true)), Ok(EnsureStep::Done));
    assert_eq!(
        cache.ensure_folder_step(2015, EnsureEvent::Start),
        Ok(EnsureStep::List("Archives/2015".to_string()))
    );
}

use fundverse::campaign::{Campaign, CampaignStatus, CampaignStore};
use fundverse::upload::{all_present_but, assemble, new_slots};

#[test]
fn new_slots_are_empty() {
    assert!(new_slots(0).is_empty());
    let s = new_slots(3);
    assert_eq!(s.len(), 3);
    assert!(s.iter().all(|x| x.is_none()));
}

#[test]
fn presence_checks() {
    let mut s = new_slots(3);
    assert!(all_present_but(&new_slots(0), 0));
    assert!(all_present_but(&new_slots(1), 0));
    s[0] = Some(vec![1]);
    s[2] = Some(vec![]);
    assert!(all_present_but(&s, 1));
    assert!(!all_present_but(&s, 0));
    assert!(!all_present_but(&s, 7));
    s[1] = Some(vec![2, 3]);
    assert!(all_present_but(&s, 7));
    assert!(all_present_but(&s, 2));
}

#[test]
fn assemble_joins_in_index_order() {
    let s = vec![Some(vec![1u8, 2]), Some(vec![]), Some(vec![3]), Some(vec![4, 5, 6])];
    assert_eq!(assemble(&s), vec![1, 2, 3, 4, 5, 6]);
    assert_eq!(assemble(&new_slots(0)), Vec::<u8>::new());
    // empty slots add nothing
    let s = vec![Some(vec![1u8]), None, Some(vec![3])];
    assert_eq!(assemble(&s), vec![1, 3]);
}

fn record(title: &str, end_date: u64) -> Campaign {
    Campaign {
        id: 0,
        title: title.to_string(),
        description: "D".to_string(),
        funding_goal: 1,
        current_funding: 0,
        legal_entity: "L".to_string(),
        status: None,
        contact_info: "C".to_string(),
        category: "K".to_string(),
        business_registration: 0,
        created_at: 0,
        updated_at: 0,
        doc_ids: vec![],
        amount_raised: 0,
        goal: 1,
        end_date,
    }
}

#[test]
fn store_finds_each_campaign_under_its_id() {
    let mut s = CampaignStore::new();
    assert_eq!(s.count(), 0);
    assert!(!s.contains(1));
    assert!(s.get(1).is_none());
    for i in 1..=5u64 {
        assert_eq!(s.add(record(&format!("c{}", i), i * 10)), i);
    }
    assert_eq!(s.count(), 5);
    for i in 1..=5u64 {
        assert!(s.contains(i));
        let c = s.get(i).unwrap();
        assert_eq!(c.id, i);
        assert_eq!(c.title, format!("c{}", i));
        assert_eq!(c.end_date, i * 10);
    }
    assert!(!s.contains(0));
    assert!(!s.contains(6));
    assert!(s.get(0).is_none());
    assert!(s.get(6).is_none());
}

#[test]
fn store_updates_touch_one_campaign() {
    let mut s = CampaignStore::new();
    s.add(record("a", 1));
    s.add(record("b", 2));
    s.update_campaign_amount(2, 77, 5);
    s.add_current_funding(2, 10, 6);
    s.add_current_funding(2, u64::MAX, 7);
    s.attach_doc(2, 9, 8);
    s.set_status(2, "approved", 9);
    // an earlier time does not move the stamp back
    s.attach_doc(1, 4, 0);
    s.update_campaign_amount(2, 78, 3);
    s.update_campaign_amount(3, 1, 1);
    s.attach_doc(0, 1, 1);
    let a = s.get(1).unwrap();
    assert_eq!(a.amount_raised, 0);
    assert_eq!(a.updated_at, 0);
    assert_eq!(a.doc_ids, vec![4]);
    assert!(a.status.is_none());
    let b = s.get(2).unwrap();
    assert_eq!(b.amount_raised, 78);
    assert_eq!(b.current_funding, u64::MAX);
    assert_eq!(b.doc_ids, vec![9]);
    assert_eq!(b.status.as_deref(), Some("approved"));
    assert_eq!(b.updated_at, 9);
    assert_eq!(s.count(), 2);
}

#[test]
fn card_status_turns_after_the_end_date() {
    let mut s = CampaignStore::new();
    s.add(record("a", 1_000));
    assert_eq!(s.cards(Some(CampaignStatus::Active), 1_000).len(), 1);
    assert!(s.cards(Some(CampaignStatus::Ended), 1_000).is_empty());
    assert!(s.cards(Some(CampaignStatus::Active), 1_001).is_empty());
    assert_eq!(s.cards(Some(CampaignStatus::Ended), 1_001).len(), 1);
    assert_eq!(s.cards(None, 1_001).len(), 1);
    s.add(record("b", 5));
    s.add(record("c", 50));
    let ids: Vec<u64> =
        s.cards(Some(CampaignStatus::Ended), 10).iter().map(|x| x.id).collect();
    assert_eq!(ids, vec![2]);
}

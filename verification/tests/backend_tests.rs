use candid::Principal;
use fundverse::backend::{valid_campaign_input, Backend, BackendError, UploadChunk, CHUNK_SIZE};
use fundverse::campaign::{to_card, Campaign, CampaignStatus};

fn who(n: u8) -> Principal {
    Principal::from_slice(&[n, 9, 9])
}

fn campaign(b: &mut Backend, title: &str, goal: u64, end_date: u64) -> u64 {
    b.create_campaign(
        title.to_string(),
        "A description".to_string(),
        5_000,
        "Entity Ltd".to_string(),
        "contact@example.org".to_string(),
        "technology".to_string(),
        1,
        goal,
        end_date,
        42,
    )
}

fn chunk(doc_id: u64, index: u32, data: &[u8], is_final: bool) -> UploadChunk {
    UploadChunk { doc_id, chunk_index: index, data: data.to_vec(), is_final }
}

#[test]
fn has_campaign_knows_the_ids_in_use() {
    let mut b = Backend::new();
    assert!(!b.has_campaign(1));
    let id = campaign(&mut b, "One", 1000, 500);
    assert!(b.has_campaign(id));
    assert!(!b.has_campaign(0));
    assert!(!b.has_campaign(id + 1));
}

#[test]
fn campaign_input_rules() {
    assert!(valid_campaign_input("t", "d", 1, "l", "c", "k", 1));
    assert!(!valid_campaign_input("", "d", 1, "l", "c", "k", 1));
    assert!(!valid_campaign_input("t", "", 1, "l", "c", "k", 1));
    assert!(!valid_campaign_input("t", "d", 0, "l", "c", "k", 1));
    assert!(!valid_campaign_input("t", "d", 1, "", "c", "k", 1));
    assert!(!valid_campaign_input("t", "d", 1, "l", "", "k", 1));
    assert!(!valid_campaign_input("t", "d", 1, "l", "c", "", 1));
    assert!(!valid_campaign_input("t", "d", 1, "l", "c", "k", 0));
    // whitespace counts as content here
    assert!(valid_campaign_input(" ", " ", 1, " ", " ", " ", 1));
}

#[test]
fn create_campaign_assigns_increasing_ids() {
    let mut b = Backend::new();
    assert_eq!(b.campaign_count(), 0);
    assert_eq!(campaign(&mut b, "One", 1000, 500), 1);
    assert_eq!(campaign(&mut b, "Two", 2000, 600), 2);
    assert_eq!(campaign(&mut b, "Three", 3000, 700), 3);
    assert_eq!(b.campaign_count(), 3);
    let c = b.get_campaign(2).unwrap();
    assert_eq!(c.id, 2);
    assert_eq!(c.title, "Two");
    assert_eq!(c.description, "A description");
    assert_eq!(c.funding_goal, 5_000);
    assert_eq!(c.current_funding, 0);
    assert_eq!(c.legal_entity, "Entity Ltd");
    assert_eq!(c.status.as_deref(), Some("pending"));
    assert_eq!(c.contact_info, "contact@example.org");
    assert_eq!(c.category, "technology");
    assert_eq!(c.business_registration, 1);
    assert_eq!(c.created_at, 42);
    assert_eq!(c.updated_at, 42);
    assert!(c.doc_ids.is_empty());
    assert_eq!(c.amount_raised, 0);
    assert_eq!(c.goal, 2000);
    assert_eq!(c.end_date, 600);
    assert_eq!(b.get_campaign(1).unwrap().title, "One");
    assert_eq!(b.get_campaign_by_id(3).unwrap().title, "Three");
    assert!(b.get_campaign(0).is_none());
    assert!(b.get_campaign(4).is_none());
}

#[test]
fn funding_through_three_channels() {
    let mut b = Backend::new();
    let id = campaign(&mut b, "One", 1000, 500);
    b.receive_icp_contribution(id, 400, 50).unwrap();
    assert_eq!(b.process_traditional_payment(id, 7, 300, 60).unwrap(), 60);
    b.receive_spv_contribution(id, 200, 70).unwrap();
    let f = b.get_unified_funding(id).unwrap();
    assert_eq!(f.total_raised, 900);
    assert_eq!(f.total_goal, 1000);
    assert_eq!(f.icp_raised, 400);
    assert_eq!(f.traditional_raised, 300);
    assert_eq!(f.spv_raised, 200);
    let c = b.get_campaign(id).unwrap();
    assert_eq!(c.amount_raised, 900);
    assert_eq!(c.current_funding, 400);
    assert_eq!(c.updated_at, 70);
}

#[test]
fn total_is_the_sum_at_every_step() {
    let mut b = Backend::new();
    b.set_payment_gateway_canister(who(1), who(1), who(5));
    let one = campaign(&mut b, "One", 1000, 500);
    let two = campaign(&mut b, "Two", 2000, 500);
    let steps: [(u8, u64, u64); 8] = [
        (0, 1, 5), (1, 2, 7), (2, 1, 11), (0, 2, 13), (1, 1, 17), (2, 2, 19), (0, 1, 23), (1, 1, 0),
    ];
    for (channel, target, amount) in steps {
        let id = if target == 1 { one } else { two };
        match channel {
            0 => b.receive_icp_contribution(id, amount, 1).unwrap(),
            1 => {
                b.process_traditional_payment(id, 1, amount, 1).unwrap();
            }
            _ => b.receive_spv_contribution(id, amount, 1).unwrap(),
        }
        for id in [one, two] {
            let f = b.get_unified_funding(id).unwrap();
            assert_eq!(f.total_raised, f.icp_raised + f.traditional_raised + f.spv_raised);
            assert_eq!(f.icp_raised, b.get_icp_contribution(id));
            assert_eq!(f.traditional_raised, b.get_traditional_contribution(id));
            assert_eq!(f.spv_raised, b.get_spv_contribution(id));
            assert_eq!(b.get_campaign(id).unwrap().amount_raised, f.total_raised);
        }
    }
    let f = b.get_unified_funding(one).unwrap();
    assert_eq!((f.icp_raised, f.traditional_raised, f.spv_raised), (28, 17, 11));
    let f = b.get_unified_funding(two).unwrap();
    assert_eq!((f.icp_raised, f.traditional_raised, f.spv_raised), (13, 7, 19));
}

#[test]
fn contributions_to_a_missing_campaign_fail() {
    let mut b = Backend::new();
    b.set_payment_gateway_canister(who(1), who(1), who(5));
    assert!(matches!(b.receive_icp_contribution(1, 5, 1), Err(BackendError::CampaignNotFound)));
    assert!(matches!(b.receive_spv_contribution(1, 5, 1), Err(BackendError::CampaignNotFound)));
    assert!(matches!(
        b.process_traditional_payment(1, 1, 5, 1),
        Err(BackendError::CampaignNotFound)
    ));
    assert!(b.get_unified_funding(1).is_none());
    assert_eq!(b.get_icp_contribution(1), 0);
    assert_eq!(b.get_traditional_contribution(1), 0);
    assert_eq!(b.get_spv_contribution(1), 0);
}

#[test]
fn traditional_payment_credits_whatever_the_gateway_and_the_method() {
    let mut b = Backend::new();
    let id = campaign(&mut b, "One", 1000, 500);
    // no gateway is named
    assert_eq!(b.process_traditional_payment(id, 1, 5, 50).unwrap(), 50);
    assert_eq!(b.get_traditional_contribution(id), 5);
    assert_eq!(b.get_campaign(id).unwrap().amount_raised, 5);
    b.set_payment_gateway_canister(who(1), who(1), who(5));
    assert_eq!(b.process_traditional_payment(id, u64::MAX, 7, 60).unwrap(), 60);
    assert_eq!(b.process_traditional_payment(id, 0, 0, 61).unwrap(), 61);
    assert_eq!(b.get_traditional_contribution(id), 12);
    assert_eq!(b.get_icp_contribution(id), 0);
    assert_eq!(b.get_spv_contribution(id), 0);
    let c = b.get_campaign(id).unwrap();
    assert_eq!(c.amount_raised, 12);
    assert_eq!(c.current_funding, 0);
    assert_eq!(c.updated_at, 61);
}

#[test]
fn contribution_fits_guards_the_sum() {
    let mut b = Backend::new();
    let id = campaign(&mut b, "One", 1000, 500);
    b.receive_icp_contribution(id, u64::MAX - 10, 1).unwrap();
    assert!(b.contribution_fits(id, 10));
    assert!(!b.contribution_fits(id, 11));
    assert!(b.contribution_fits(99, u64::MAX));
    b.receive_spv_contribution(id, 10, 2).unwrap();
    assert_eq!(b.get_unified_funding(id).unwrap().total_raised, u64::MAX);
    assert!(!b.contribution_fits(id, 1));
    assert!(b.contribution_fits(id, 0));
}

#[test]
fn update_stamp_never_moves_back() {
    let mut b = Backend::new();
    let id = campaign(&mut b, "One", 1000, 500);
    b.receive_icp_contribution(id, 5, 41).unwrap();
    let c = b.get_campaign(id).unwrap();
    assert_eq!((c.created_at, c.updated_at, c.amount_raised), (42, 42, 5));
    b.receive_spv_contribution(id, 5, 43).unwrap();
    assert_eq!(b.get_campaign(id).unwrap().updated_at, 43);
    b.submit_campaign_for_approval(id, 10).unwrap();
    let c = b.get_campaign(id).unwrap();
    assert_eq!(c.updated_at, 43);
    assert_eq!(c.status.as_deref(), Some("pending_approval"));
}

#[test]
fn current_funding_follows_the_native_channel() {
    let mut b = Backend::new();
    let one = campaign(&mut b, "One", 1000, 500);
    b.receive_icp_contribution(one, 5, 1).unwrap();
    b.receive_spv_contribution(one, 6, 2).unwrap();
    let c = b.get_campaign(one).unwrap();
    assert_eq!(c.current_funding, 5);
    assert_eq!(c.amount_raised, 11);
}

#[test]
fn total_funding_adds_the_native_channel_again() {
    let mut b = Backend::new();
    let id = campaign(&mut b, "One", 1000, 500);
    b.receive_icp_contribution(id, 40, 1).unwrap();
    b.receive_spv_contribution(id, 2, 1).unwrap();
    assert!(b.total_funding_fits(id));
    assert_eq!(b.get_campaign_total_funding(id), 82);
    assert_eq!(b.get_campaign_total_funding(77), 0);
}

#[test]
fn campaign_meta_and_details() {
    let mut b = Backend::new();
    let id = campaign(&mut b, "One", 1000, 10 * 86_400);
    b.receive_icp_contribution(id, 40, 1).unwrap();
    let m = b.get_campaign_meta(id).unwrap();
    assert_eq!(m.campaign_id, id);
    assert_eq!(m.goal, 1000);
    assert_eq!(m.amount_raised, 40);
    assert_eq!(m.end_date_secs, 864_000);
    assert!(b.get_campaign_meta(5).is_none());
    let d = b.get_campaign_with_details(id, 86_400).unwrap();
    assert_eq!(d.details.title, "One");
    assert_eq!(d.campaign.id, id);
    assert_eq!(d.campaign.days_left, 9);
    assert_eq!(d.campaign.amount_raised, 40);
    assert!(b.get_campaign_with_details(5, 0).is_none());
}

fn sample(end_date: u64) -> Campaign {
    Campaign {
        id: 3,
        title: "T".to_string(),
        description: "D".to_string(),
        funding_goal: 1,
        current_funding: 0,
        legal_entity: "L".to_string(),
        status: None,
        contact_info: "C".to_string(),
        category: "K".to_string(),
        business_registration: 0,
        created_at: 0,
        updated_at: 0,
        doc_ids: vec![],
        amount_raised: 12,
        goal: 34,
        end_date,
    }
}

#[test]
fn card_days_left_rounds_towards_zero() {
    let card = to_card(&sample(3 * 86_400 + 5), 5);
    assert_eq!(card.id, 3);
    assert_eq!(card.title, "T");
    assert_eq!(card.category, "K");
    assert_eq!(card.amount_raised, 12);
    assert_eq!(card.goal, 34);
    assert_eq!(card.end_date, 3 * 86_400 + 5);
    assert_eq!(card.days_left, 3);
    assert_eq!(to_card(&sample(3 * 86_400 + 4), 5).days_left, 2);
    assert_eq!(to_card(&sample(100), 100).days_left, 0);
    assert_eq!(to_card(&sample(100), 200).days_left, 0);
    assert_eq!(to_card(&sample(0), 2 * 86_400 + 1).days_left, -2);
    assert_eq!(to_card(&sample(0), 86_400).days_left, -1);
    assert_eq!(to_card(&sample(0), 86_399).days_left, 0);
    assert_eq!(to_card(&sample(u64::MAX), 0).days_left, 213_503_982_334_601);
    assert_eq!(to_card(&sample(0), u64::MAX).days_left, -213_503_982_334_601);
}

#[test]
fn cards_list_by_id_and_status() {
    let mut b = Backend::new();
    let a = campaign(&mut b, "Past", 1000, 100);
    let c = campaign(&mut b, "Now", 1000, 1_000);
    let d = campaign(&mut b, "Later", 1000, 1_000 + 86_400);
    let all: Vec<u64> = b.get_campaign_cards(1_000).iter().map(|x| x.id).collect();
    assert_eq!(all, vec![a, c, d]);
    let active: Vec<u64> = b
        .get_campaign_cards_by_status(CampaignStatus::Active, 1_000)
        .iter()
        .map(|x| x.id)
        .collect();
    assert_eq!(active, vec![c, d]);
    let ended: Vec<u64> = b
        .get_campaign_cards_by_status(CampaignStatus::Ended, 1_000)
        .iter()
        .map(|x| x.id)
        .collect();
    assert_eq!(ended, vec![a]);
    let cards = b.get_campaign_cards(1_000);
    assert_eq!(cards[0].days_left, 0);
    assert_eq!(cards[1].days_left, 0);
    assert_eq!(cards[2].days_left, 1);
    assert_eq!(cards[2].title, "Later");
    assert!(Backend::new().get_campaign_cards(5).is_empty());
}

#[test]
fn three_chunks_out_of_order() {
    let mut b = Backend::new();
    let id = campaign(&mut b, "One", 1000, 500);
    let doc = b
        .start_chunked_upload(id, "plan.pdf".to_string(), "application/pdf".to_string(), 3, 77)
        .unwrap();
    assert_eq!(doc, 1);
    assert_eq!(b.doc_count(), 1);
    b.upload_chunk(chunk(doc, 1, b"bbb", false), 80).unwrap();
    b.upload_chunk(chunk(doc, 0, b"aa", false), 81).unwrap();
    assert!(b.get_campaign(id).unwrap().doc_ids.is_empty());
    assert!(b.get_doc(doc).unwrap().data.is_empty());
    b.upload_chunk(chunk(doc, 2, b"c", true), 82).unwrap();
    let d = b.get_doc(doc).unwrap();
    assert_eq!(d.data, b"aabbbc".to_vec());
    assert_eq!(d.id, doc);
    assert_eq!(d.campaign_id, id);
    assert_eq!(d.name, "plan.pdf");
    assert_eq!(d.content_type, "application/pdf");
    assert_eq!(d.uploaded_at, 77);
    let c = b.get_campaign(id).unwrap();
    assert_eq!(c.doc_ids, vec![doc]);
    assert_eq!(c.doc_ids.iter().filter(|x| **x == doc).count(), 1);
    assert_eq!(c.updated_at, 82);
    // the session is gone
    assert!(matches!(
        b.upload_chunk(chunk(doc, 0, b"zz", false), 83),
        Err(BackendError::UploadNotFound)
    ));
    assert_eq!(b.get_doc(doc).unwrap().data, b"aabbbc".to_vec());
}

#[test]
fn every_order_of_three_chunks_reconstructs() {
    let orders: [[u32; 3]; 6] =
        [[0, 1, 2], [0, 2, 1], [1, 0, 2], [1, 2, 0], [2, 0, 1], [2, 1, 0]];
    let parts: [&[u8]; 3] = [b"first-", b"second-", b"third"];
    for order in orders {
        let mut b = Backend::new();
        let id = campaign(&mut b, "One", 1000, 500);
        let doc = b.start_chunked_upload(id, "n".to_string(), "t".to_string(), 3, 1).unwrap();
        for (step, index) in order.iter().enumerate() {
            b.upload_chunk(chunk(doc, *index, parts[*index as usize], step == 2), 2).unwrap();
        }
        assert_eq!(b.get_doc(doc).unwrap().data, b"first-second-third".to_vec());
        assert_eq!(b.get_campaign(id).unwrap().doc_ids, vec![doc]);
    }
}

#[test]
fn early_final_chunk_is_incomplete_and_changes_nothing() {
    let mut b = Backend::new();
    let id = campaign(&mut b, "One", 1000, 500);
    let doc = b.start_chunked_upload(id, "n".to_string(), "t".to_string(), 3, 1).unwrap();
    b.upload_chunk(chunk(doc, 0, b"aa", false), 2).unwrap();
    let r = b.upload_chunk(chunk(doc, 2, b"cc", true), 3);
    assert!(matches!(r, Err(BackendError::IncompleteUpload)));
    assert!(b.get_campaign(id).unwrap().doc_ids.is_empty());
    assert!(b.get_doc(doc).unwrap().data.is_empty());
    assert_eq!(b.get_campaign(id).unwrap().updated_at, 42);
    // the refused chunk was not kept: slot 2 is still empty
    b.upload_chunk(chunk(doc, 1, b"bb", false), 4).unwrap();
    let r = b.upload_chunk(chunk(doc, 1, b"bb", true), 5);
    assert!(matches!(r, Err(BackendError::IncompleteUpload)));
    b.upload_chunk(chunk(doc, 2, b"cc", true), 6).unwrap();
    assert_eq!(b.get_doc(doc).unwrap().data, b"aabbcc".to_vec());
}

#[test]
fn resending_a_chunk_overwrites_it() {
    let mut b = Backend::new();
    let id = campaign(&mut b, "One", 1000, 500);
    let doc = b.start_chunked_upload(id, "n".to_string(), "t".to_string(), 2, 1).unwrap();
    b.upload_chunk(chunk(doc, 0, b"old", false), 2).unwrap();
    b.upload_chunk(chunk(doc, 0, b"new", false), 3).unwrap();
    b.upload_chunk(chunk(doc, 1, b"!", false), 4).unwrap();
    b.upload_chunk(chunk(doc, 1, b"?", true), 5).unwrap();
    assert_eq!(b.get_doc(doc).unwrap().data, b"new?".to_vec());
}

#[test]
fn chunk_index_must_be_in_range() {
    let mut b = Backend::new();
    let id = campaign(&mut b, "One", 1000, 500);
    let doc = b.start_chunked_upload(id, "n".to_string(), "t".to_string(), 2, 1).unwrap();
    assert!(matches!(
        b.upload_chunk(chunk(doc, 2, b"x", false), 2),
        Err(BackendError::InvalidChunkIndex)
    ));
    assert!(matches!(
        b.upload_chunk(chunk(doc, u32::MAX, b"x", true), 2),
        Err(BackendError::InvalidChunkIndex)
    ));
    let empty = b.start_chunked_upload(id, "n".to_string(), "t".to_string(), 0, 1).unwrap();
    assert!(matches!(
        b.upload_chunk(chunk(empty, 0, b"x", true), 2),
        Err(BackendError::InvalidChunkIndex)
    ));
    assert!(matches!(
        b.upload_chunk(chunk(55, 0, b"x", false), 2),
        Err(BackendError::UploadNotFound)
    ));
}

#[test]
fn uploads_need_a_campaign() {
    let mut b = Backend::new();
    assert!(b.start_chunked_upload(1, "n".to_string(), "t".to_string(), 2, 1).is_none());
    assert!(b.upload_doc(1, "n".to_string(), "t".to_string(), vec![1], 1, 2).is_none());
    assert_eq!(b.doc_count(), 0);
    assert!(b.get_doc(1).is_none());
}

#[test]
fn upload_doc_attaches_at_once() {
    let mut b = Backend::new();
    let id = campaign(&mut b, "One", 1000, 500);
    let first = b
        .upload_doc(id, "a.txt".to_string(), "text/plain".to_string(), b"hello".to_vec(), 5, 60)
        .unwrap();
    let second = b
        .upload_doc(id, "b.txt".to_string(), "text/plain".to_string(), vec![], 7, 80)
        .unwrap();
    assert_eq!((first, second), (1, 2));
    let d = b.get_doc(first).unwrap();
    assert_eq!(d.data, b"hello".to_vec());
    assert_eq!(d.name, "a.txt");
    assert_eq!(d.content_type, "text/plain");
    assert_eq!(d.campaign_id, id);
    assert_eq!(d.uploaded_at, 5);
    let c = b.get_campaign(id).unwrap();
    assert_eq!(c.doc_ids, vec![1, 2]);
    assert_eq!(c.updated_at, 80);
    let big = vec![7u8; CHUNK_SIZE];
    let third = b.upload_doc(id, "c".to_string(), "t".to_string(), big, 9, 10).unwrap();
    assert_eq!(b.get_doc(third).unwrap().data.len(), 1_500_000);
}

#[test]
fn upload_doc_equals_a_one_chunk_session() {
    let mut a = Backend::new();
    let mut b = Backend::new();
    let ia = campaign(&mut a, "One", 1000, 500);
    let ib = campaign(&mut b, "One", 1000, 500);
    let da = a.upload_doc(ia, "n".to_string(), "t".to_string(), b"xyz".to_vec(), 5, 6).unwrap();
    let db = b.start_chunked_upload(ib, "n".to_string(), "t".to_string(), 1, 5).unwrap();
    b.upload_chunk(chunk(db, 0, b"xyz", true), 6).unwrap();
    assert_eq!(da, db);
    let (x, y) = (a.get_doc(da).unwrap(), b.get_doc(db).unwrap());
    assert_eq!((x.id, x.campaign_id, &x.name, &x.data), (y.id, y.campaign_id, &y.name, &y.data));
    let (x, y) = (a.get_campaign(ia).unwrap(), b.get_campaign(ib).unwrap());
    assert_eq!((x.doc_ids, x.updated_at), (y.doc_ids, y.updated_at));
}

#[test]
fn documents_of_two_campaigns_stay_apart() {
    let mut b = Backend::new();
    let one = campaign(&mut b, "One", 1000, 500);
    let two = campaign(&mut b, "Two", 1000, 500);
    let d1 = b.start_chunked_upload(one, "n".to_string(), "t".to_string(), 1, 1).unwrap();
    let d2 = b.upload_doc(two, "n".to_string(), "t".to_string(), vec![1], 1, 2).unwrap();
    let d3 = b.start_chunked_upload(two, "n".to_string(), "t".to_string(), 1, 1).unwrap();
    b.upload_chunk(chunk(d3, 0, b"3", true), 3).unwrap();
    b.upload_chunk(chunk(d1, 0, b"1", true), 4).unwrap();
    assert_eq!(b.get_campaign(one).unwrap().doc_ids, vec![d1]);
    assert_eq!(b.get_campaign(two).unwrap().doc_ids, vec![d2, d3]);
}

#[test]
fn spv_deal_in_two_halves() {
    let mut b = Backend::new();
    for i in 0..12 {
        campaign(&mut b, &format!("C{}", i), 1000, 500);
    }
    assert!(matches!(
        b.begin_create_spv_deal(13, 10, 500, 5),
        Err(BackendError::CampaignNotFound)
    ));
    assert!(matches!(
        b.begin_create_spv_deal(12, 10, 500, 5),
        Err(BackendError::ControllerNotSet)
    ));
    b.set_controller_canister(who(1), who(1), who(8));
    let req = b.begin_create_spv_deal(12, 10, 500, 5).unwrap();
    assert_eq!(req.controller, who(8));
    assert_eq!(req.startup_id, "campaign_12");
    assert_eq!(req.equity_percent, 10);
    assert_eq!(req.total_raise, 500);
    assert_eq!(req.fraction_price, 5);
    assert_eq!(b.begin_create_spv_deal(7, 1, 1, 1).unwrap().startup_id, "campaign_7");
    assert!(b.get_spv_deals_for_campaign(12).is_empty());
    assert_eq!(b.finish_create_spv_deal(12, Ok(31)).unwrap(), 31);
    assert_eq!(b.get_spv_deals_for_campaign(12), vec![31]);
    let info = b.get_spv_deal_info(12).unwrap();
    assert_eq!(info.deal_id, 31);
    assert_eq!(info.campaign_id, 12);
    assert_eq!(info.equity_percent, 0);
    assert_eq!(info.total_raise, 0);
    assert_eq!(info.fraction_price, 0);
    assert!(info.spv_canister.is_none());
    assert!(info.spv_token_canister.is_none());
}

#[test]
fn failed_deal_call_is_reported_and_changes_nothing() {
    let mut b = Backend::new();
    let id = campaign(&mut b, "One", 1000, 500);
    b.set_controller_canister(who(1), who(1), who(8));
    let r = b.finish_create_spv_deal(id, Err("(SysTransient, \"timeout\")".to_string()));
    match r {
        Err(BackendError::ExternalCallFailure(m)) => {
            assert_eq!(m, "Failed to create SPV deal: (SysTransient, \"timeout\")")
        }
        _ => panic!("expected ExternalCallFailure"),
    }
    assert!(b.get_spv_deals_for_campaign(id).is_empty());
    assert!(b.get_spv_deal_info(id).is_none());
    assert!(matches!(b.finish_create_spv_deal(9, Ok(4)), Err(BackendError::CampaignNotFound)));
    assert!(b.get_spv_deals_for_campaign(9).is_empty());
}

#[test]
fn linking_a_campaign_to_a_deal() {
    let mut b = Backend::new();
    let id = campaign(&mut b, "One", 1000, 500);
    assert!(matches!(b.link_campaign_to_spv(2, 5), Err(BackendError::CampaignNotFound)));
    b.link_campaign_to_spv(id, 5).unwrap();
    assert_eq!(b.get_spv_deals_for_campaign(id), vec![5]);
    // no controller named: no info
    assert!(b.get_spv_deal_info(id).is_none());
    b.link_campaign_to_spv(id, 6).unwrap();
    assert_eq!(b.get_spv_deals_for_campaign(id), vec![6]);
}

#[test]
fn payment_methods_query_target() {
    let mut b = Backend::new();
    assert!(matches!(
        b.begin_get_user_payment_methods(None, who(3)),
        Err(BackendError::PaymentGatewayNotSet)
    ));
    b.set_payment_gateway_canister(who(1), who(1), who(5));
    assert_eq!(b.begin_get_user_payment_methods(None, who(3)).unwrap(), (who(5), who(3)));
    assert_eq!(b.begin_get_user_payment_methods(Some(who(4)), who(3)).unwrap(), (who(5), who(4)));
}

#[test]
fn approval_flow() {
    let mut b = Backend::new();
    let id = campaign(&mut b, "One", 1000, 500);
    assert_eq!(b.get_campaign_approval_status(id).as_deref(), Some("pending"));
    assert!(b.get_campaign_approval_status(2).is_none());
    assert!(matches!(
        b.submit_campaign_for_approval(2, 50),
        Err(BackendError::CampaignNotFound)
    ));
    assert_eq!(b.submit_campaign_for_approval(id, 50).unwrap(), None);
    assert_eq!(b.get_campaign_approval_status(id).as_deref(), Some("pending_approval"));
    assert_eq!(b.get_campaign(id).unwrap().updated_at, 50);
    // nobody is admin yet
    assert!(matches!(b.approve_campaign(who(6), id, 60), Err(BackendError::NotAuthorized)));
    b.set_admin_canister(who(1), who(1), who(6));
    assert_eq!(b.submit_campaign_for_approval(id, 55).unwrap(), Some(who(6)));
    assert!(matches!(b.approve_campaign(who(7), id, 60), Err(BackendError::NotAuthorized)));
    assert!(matches!(b.approve_campaign(who(6), 2, 60), Err(BackendError::CampaignNotFound)));
    assert_eq!(b.get_campaign_approval_status(id).as_deref(), Some("pending_approval"));
    b.approve_campaign(who(6), id, 61).unwrap();
    assert_eq!(b.get_campaign_approval_status(id).as_deref(), Some("approved"));
    let c = b.get_campaign(id).unwrap();
    assert_eq!(c.updated_at, 61);
    assert_eq!(c.title, "One");
}

#[test]
fn error_messages() {
    assert_eq!(BackendError::CampaignNotFound.message(), "Campaign not found");
    assert_eq!(BackendError::UploadNotFound.message(), "Document upload not found");
    assert_eq!(BackendError::InvalidChunkIndex.message(), "Invalid chunk index");
    assert_eq!(BackendError::IncompleteUpload.message(), "Not all chunks received");
    assert_eq!(BackendError::ControllerNotSet.message(), "Controller canister not set");
    assert_eq!(BackendError::PaymentGatewayNotSet.message(), "PaymentGateway canister not set");
    assert_eq!(BackendError::NotAuthorized.message(), "Only admin can approve campaigns");
    assert_eq!(BackendError::ExternalCallFailure("x".to_string()).message(), "x");
}

use fft::event::Price;
use fft::mp_view::{
    check_pane_agreement, display_session, for_each_tpo, open_marker_bucket,
    period_letter, session_open_footer, visible_rows, TpoKind, VolumeMismatch,
};
use fft::render::{
    DomPriceRow, DomRenderState, ProfilePriceRow, ProfileRenderState, ProfileSessionRender,
};

fn row(price: i64, volume: u64) -> ProfilePriceRow {
    ProfilePriceRow {
        price: Price(price),
        session_volume: volume,
        ..Default::default()
    }
}

#[test]
fn letters_restart_at_rth_a_and_resume_eth_after_close() {
    let eth = (1 << 0) | (1 << 30) | (1 << 44);
    let rth = (1 << 0) | (1 << 12);
    let got = for_each_tpo(eth, rth);
    assert_eq!(
        got,
        [
            (0, 'A', TpoKind::Eth),
            (30, 'e', TpoKind::Eth),
            (31, 'A', TpoKind::Rth),
            (43, 'M', TpoKind::Rth),
            (44, 's', TpoKind::Eth),
        ]
    );
}

#[test]
fn letters_run_from_capitals_to_small_ones() {
    assert_eq!(period_letter(0), 'A');
    assert_eq!(period_letter(25), 'Z');
    assert_eq!(period_letter(26), 'a');
    assert_eq!(period_letter(51), 'z');
}

#[test]
fn visible_aggregation_ors_tpos_and_sums_volume() {
    let mut a = row(100, 3);
    a.eth_periods = 1;
    a.period_volume = 2;
    let mut b = row(101, 5);
    b.eth_periods = 2;
    b.period_volume = 4;
    let session = ProfileSessionRender {
        rows: vec![a, b],
        ..Default::default()
    };
    let view = visible_rows(&session, Price(1), 2, Some(Price(100)), 2);
    assert_eq!(view.rows.len(), 2);
    let bucket = view
        .rows
        .iter()
        .find(|row| row.price == Price(100))
        .unwrap();
    assert_eq!(bucket.session_volume, 8);
    assert_eq!(bucket.period_volume, 6);
    assert_eq!(bucket.eth_periods, 3);
}

#[test]
fn linked_center_stays_centered_beyond_profile_range() {
    let session = ProfileSessionRender {
        rows: vec![row(100, 1), row(101, 1)],
        ..Default::default()
    };
    let view = visible_rows(&session, Price(1), 1, Some(Price(110)), 5);
    assert_eq!(view.rows[2].price, Price(110));
    assert!(view.rows.iter().all(|row| row.session_volume == 0));
}

#[test]
fn agreement_reports_first_divergent_price() {
    let profile = ProfileRenderState {
        sessions: vec![ProfileSessionRender {
            rows: vec![row(100, 7), row(101, 9)],
            ..Default::default()
        }],
    };
    let dom = DomRenderState {
        rows: vec![
            DomPriceRow {
                price: Price(99),
                session_volume: 99,
                ..Default::default()
            },
            DomPriceRow {
                price: Price(100),
                session_volume: 7,
                ..Default::default()
            },
            DomPriceRow {
                price: Price(101),
                session_volume: 8,
                ..Default::default()
            },
        ],
        ..Default::default()
    };
    assert_eq!(
        check_pane_agreement(&profile, &dom),
        Err(VolumeMismatch {
            price: Price(101),
            profile_volume: 9,
            dom_volume: 8,
        })
    );
}

#[test]
fn agreement_counts_only_overlapping_prices() {
    let profile = ProfileRenderState {
        sessions: vec![ProfileSessionRender {
            rows: vec![row(100, 7)],
            ..Default::default()
        }],
    };
    let dom = DomRenderState {
        rows: vec![DomPriceRow {
            price: Price(100),
            session_volume: 7,
            ..Default::default()
        }],
        ..Default::default()
    };
    assert_eq!(check_pane_agreement(&profile, &dom), Ok(1));
}

#[test]
fn footer_uses_prior_day_at_1800_new_york() {
    // 2026-07-29 CT trade date.
    assert_eq!(session_open_footer(20_663), "07-28 18:00");
    // 1970-01-02 trade date rolls the footer into the prior year boundary safely.
    assert_eq!(session_open_footer(1), "01-01 18:00");
}

#[test]
fn open_marker_bucket_present_or_absent() {
    let with = ProfileSessionRender {
        open: Some(Price(103)),
        ..Default::default()
    };
    assert_eq!(open_marker_bucket(&with, Price(2)), Some(Price(102)));

    let without = ProfileSessionRender {
        open: None,
        ..Default::default()
    };
    assert_eq!(open_marker_bucket(&without, Price(2)), None);
}

#[test]
fn the_first_session_is_on_display() {
    assert!(display_session(&ProfileRenderState::default()).is_none());
    let profile = ProfileRenderState {
        sessions: vec![
            ProfileSessionRender {
                trade_date: 3,
                ..Default::default()
            },
            ProfileSessionRender {
                trade_date: 2,
                ..Default::default()
            },
        ],
    };
    assert_eq!(display_session(&profile).unwrap().trade_date, 3);
    assert_eq!(
        check_pane_agreement(&ProfileRenderState::default(), &DomRenderState::default()),
        Ok(0)
    );
}

#[test]
fn an_unpinned_profile_centers_on_its_middle() {
    let session = ProfileSessionRender {
        rows: vec![row(100, 1), row(104, 1)],
        ..Default::default()
    };
    let view = visible_rows(&session, Price(1), 1, None, 3);
    let prices: Vec<i64> = view.rows.iter().map(|row| row.price.0).collect();
    assert_eq!(prices, vec![101, 102, 103]);
}

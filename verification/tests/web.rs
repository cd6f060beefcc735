use kairos::activity::{
    action_color, actor_label, diff_line_style, diff_lines, encode_query, family_of_short_code,
    feed_query, format_when, member_option, Member,
};
use kairos::api::{Whoami, WhoamiBoardCapabilities, WhoamiOrganization, WhoamiTeam, WhoamiUser};
use kairos::board_data::{
    create_path, find_board, transition_path, Board, BoardColumn, BoardDetail, BoardTransition,
    EntityKind,
};
use kairos::board_list::{band_models, Team};
use kairos::board_data::{Adr, BoardColumnItems, BoardItemsResponse, BoardView, Initiative, Strategy, Task};
use kairos::board_view::column_models;
use kairos::editor::{apply_syntax, editor_step, EditorAction, EditorEvent, EditorState as DraftEditor, ServerCopy};
use kairos::activity::{notice_text, render_diff, rollback_notice, LineChange, RollbackNotice};
use kairos::repo_lens::{board_repos, lens_controls, toggle_repo};
use kairos::board_data::entry_column;
use kairos::admin_api::{check_grant_update, member_to_add, OrgMember};
use kairos::board_create::new_item_from_form;
use kairos::board_create::{create_request_body, document_request_body};
use kairos::board_data::NewItem;
use kairos::board_rules::{
    board_powers, card_lane, create_capability, drop_effect, grant_covers, kind_color, level_color,
    BoardPowers, DragData, Token,
};
use kairos::capabilities::{compose_selection, EditorState, SelectionFlags};
use kairos::encoding::{base64url, form_component, form_encode, uri_component};
use kairos::gating::{can_access, capability_matches, has_board_config, is_org_admin};
use kairos::glob::glob_match;
use kairos::item::{
    item_url, lifecycle_color, link_state_color, manage_capability, put_away_when,
    relationship_label, tab_hrefs, Family,
};
use kairos::live::{backoff_delay_ms, events_url_for, subscribe_message, LiveState};
use kairos::repo_lens::{lens_admits, parse_repo_query, prune_repos, repo_lanes, CardModel, RepoLane};
use kairos::web_api::{describe, error_from_envelope, should_expire_session, ApiError};
use kairos::webauth::{
    authorize_redirect, check_callback, code_exchange_body, install_plan, refresh_body,
    ApiBearer, AuthConfig, CallbackInput, TokenResponse,
};

fn me(role: &str, team_ids: &[&str], grants: &[(&str, &[&str])]) -> Whoami {
    Whoami {
        user: WhoamiUser { display_name: "u".into(), email: "u@x".into() },
        organization: WhoamiOrganization { slug: "demo".into(), role: role.into() },
        teams: team_ids
            .iter()
            .map(|id| WhoamiTeam { id: (*id).into(), slug: (*id).into(), name: (*id).into() })
            .collect(),
        capabilities: grants
            .iter()
            .map(|(slug, gs)| WhoamiBoardCapabilities {
                board_slug: (*slug).into(),
                grants: gs.iter().map(|g| (*g).into()).collect(),
            })
            .collect(),
    }
}

#[test]
fn glob_semantics_mirror_a0006() {
    assert!(capability_matches("*", "configure_boards"));
    assert!(capability_matches("configure_*", "configure_boards"));
    assert!(capability_matches("manage_*", "manage_members"));
    assert!(capability_matches("configure_boards", "configure_boards"));
    assert!(!capability_matches("configure_*", "manage_members"));
    assert!(!capability_matches("manage_tasks", "manage_members"));
    assert!(!capability_matches("transition_items", "configure_boards"));
}

#[test]
fn glob_stars_match_any_run() {
    assert!(glob_match("a*c*e", "abcde"));
    assert!(glob_match("*", ""));
    assert!(!glob_match("a*c", "abd"));
    assert!(glob_match("**", "xyz"));
}

#[test]
fn org_admin_can_access_everything() {
    let admin = me("admin", &[], &[]);
    assert!(is_org_admin(&admin));
    assert!(can_access(&admin));
}

#[test]
fn plain_member_without_grants_is_denied() {
    let member = me("member", &[], &[]);
    assert!(!can_access(&member));
    assert!(!has_board_config(&member));
}

#[test]
fn member_with_board_config_grant_can_access_but_is_not_admin() {
    let holder = me("member", &[], &[("platform-delivery", &["manage_members"])]);
    assert!(!is_org_admin(&holder));
    assert!(has_board_config(&holder));
    assert!(can_access(&holder));

    let configurer = me("member", &[], &[("initiatives", &["configure_*"])]);
    assert!(can_access(&configurer));

    let worker = me("member", &[], &[("initiatives", &["manage_tasks", "transition_items"])]);
    assert!(!can_access(&worker));
}

#[test]
fn entity_kind_per_board_level() {
    assert_eq!(EntityKind::for_board_level("strategy"), Some(EntityKind::Strategy));
    assert_eq!(EntityKind::for_board_level("initiative"), Some(EntityKind::Initiative));
    assert_eq!(EntityKind::for_board_level("delivery"), Some(EntityKind::Task));
    assert_eq!(EntityKind::for_board_level("adr"), Some(EntityKind::Adr));
    assert_eq!(EntityKind::for_board_level("nope"), None);
    assert_eq!(EntityKind::Strategy.api_family(), "strategies");
}

#[test]
fn entity_paths_and_labels() {
    assert_eq!(EntityKind::Adr.label(), "adr");
    assert_eq!(transition_path(EntityKind::Task, "DEMO-T-1"), "/api/tasks/DEMO-T-1/transition");
    assert_eq!(create_path(EntityKind::Initiative), "/api/initiatives");
}

#[test]
fn backoff_doubles_and_caps() {
    let delays: Vec<u64> = (0u32..7).map(backoff_delay_ms).collect();
    assert_eq!(delays, vec![1_000, 2_000, 4_000, 8_000, 15_000, 15_000, 15_000]);
}

#[test]
fn live_connection_reconnects_and_reconciles() {
    let mut s = LiveState::new();
    let first = s.on_open();
    assert!(first.subscribe && !first.reconcile);
    assert_eq!(s.schedule_reconnect(), Some(1_000));
    assert_eq!(s.schedule_reconnect(), Some(2_000));
    let again = s.on_open();
    assert!(again.subscribe && again.reconcile);
    assert_eq!(s.schedule_reconnect(), Some(1_000));
    assert!(s.on_message(true));
    s.close();
    assert_eq!(s.schedule_reconnect(), None);
    assert!(!s.on_message(true));
}

#[test]
fn dropped_connection_ignores_everything() {
    let mut s = LiveState::new();
    s.on_open();
    s.close();
    let opened = s.on_open();
    assert!(!opened.subscribe && !opened.reconcile);
    assert_eq!(s.schedule_reconnect(), None);
    assert!(!s.on_message(true));
    assert!(s.closed);
    assert_eq!(s.attempts, 0);
}

#[test]
fn events_url_and_subscribe_message() {
    assert_eq!(
        events_url_for("https:", "kairos.test", "tok"),
        "wss://kairos.test/ws/events?access_token=tok"
    );
    assert_eq!(events_url_for("http:", "localhost:8080", "t"), "ws://localhost:8080/ws/events?access_token=t");
    assert_eq!(subscribe_message(Some("b-1")), r#"{"subscribe":{"board_id":"b-1"}}"#);
    assert_eq!(subscribe_message(None), r#"{"subscribe":{}}"#);
    assert_eq!(subscribe_message(Some("a\"b\n")), r#"{"subscribe":{"board_id":"a\"b\n"}}"#);
}

fn board(id: &str, level: &str, team_id: Option<&str>) -> Board {
    Board {
        id: id.to_string(),
        name: id.to_string(),
        slug: id.to_string(),
        board_level: level.to_string(),
        team_id: team_id.map(str::to_string),
    }
}

fn team(id: &str, slug: &str) -> Team {
    Team {
        id: id.to_string(),
        name: slug.to_string(),
        slug: slug.to_string(),
        team_type: "platform".to_string(),
        delivery_board_id: None,
    }
}

#[test]
fn band_models_orders_levels_and_groups_delivery_by_team() {
    let boards = vec![
        board("adr-board", "adr", None),
        board("web-delivery", "delivery", Some("t2")),
        board("main-strategy", "strategy", None),
        board("platform-delivery", "delivery", Some("t1")),
        board("initiatives", "initiative", None),
        board("orphan-delivery", "delivery", None),
    ];
    let teams = vec![team("t1", "platform"), team("t2", "web")];
    let bands = band_models(boards, &teams);

    let levels: Vec<&str> = bands.iter().map(|b| b.level.as_str()).collect();
    assert_eq!(levels, vec!["strategy", "initiative", "delivery", "adr"]);

    let delivery = &bands[2];
    let headings: Vec<Option<&str>> = delivery
        .groups
        .iter()
        .map(|g| g.heading.as_ref().map(|(name, _)| name.as_str()))
        .collect();
    assert_eq!(headings, vec![Some("platform"), Some("web"), Some("No team")]);
    let platform_group = &delivery.groups[0];
    assert_eq!(
        platform_group.heading.as_ref().map(|(_, href)| href.as_str()),
        Some("/teams/platform")
    );
    assert_eq!(platform_group.boards[0].slug, "platform-delivery");
}

#[test]
fn band_models_keeps_unknown_team_boards_reachable() {
    let boards = vec![board("d", "delivery", Some("gone"))];
    let bands = band_models(boards, &[]);
    assert_eq!(bands.len(), 1);
    assert_eq!(bands[0].groups.len(), 1);
    assert_eq!(
        bands[0].groups[0].heading.as_ref().map(|(name, _)| name.as_str()),
        Some("No team")
    );
    assert_eq!(bands[0].groups[0].boards.len(), 1);
}

#[test]
fn band_models_collects_unknown_levels_last() {
    let bands = band_models(vec![board("x", "mystery", None), board("s", "strategy", None)], &[]);
    let levels: Vec<&str> = bands.iter().map(|b| b.level.as_str()).collect();
    assert_eq!(levels, vec!["strategy", "other"]);
    assert_eq!(bands[1].label, "Other");
}

#[test]
fn board_powers_mirror_team_implication() {
    let bob = me("member", &["t1"], &[]);
    let on_team = board_powers(&bob, "platform-delivery", Some("t1"), Some(EntityKind::Task));
    assert!(on_team.transition && on_team.create && on_team.documents);
    let strat = board_powers(&bob, "s", Some("t1"), Some(EntityKind::Strategy));
    assert!(strat.transition && strat.documents && !strat.create);
    let other = board_powers(&bob, "web-delivery", Some("t2"), Some(EntityKind::Task));
    assert_eq!(other, BoardPowers::default());
    let orgwide = board_powers(&bob, "strategy", None, Some(EntityKind::Strategy));
    assert_eq!(orgwide, BoardPowers::default());
}

#[test]
fn board_powers_mirror_grants_and_admin() {
    let admin = me("admin", &[], &[]);
    let p = board_powers(&admin, "any", None, Some(EntityKind::Adr));
    assert!(p.transition && p.create && p.documents);

    let granted = me("member", &[], &[("adrs", &["transition_*", "manage_adrs"])]);
    let p = board_powers(&granted, "adrs", None, Some(EntityKind::Adr));
    assert!(p.transition && p.create && !p.documents);
    let elsewhere = board_powers(&granted, "strategy", None, Some(EntityKind::Strategy));
    assert_eq!(elsewhere, BoardPowers::default());

    assert!(grant_covers("*", "manage_tasks"));
    assert!(grant_covers("manage_*", "manage_tasks"));
    assert!(!grant_covers("manage_*", "transition_items"));
    assert!(!grant_covers("manage_tasks", "manage_taskss"));
}

#[test]
fn card_lane_projects_work_class() {
    assert_eq!(card_lane(Some("support")), "support");
    assert_eq!(card_lane(Some("planned")), "planned");
    assert_eq!(card_lane(None), "planned");
}

#[test]
fn drop_effect_decides_column_and_lane_moves() {
    let drag = |targets: &[&str], work_class: Option<&str>| DragData {
        kind: EntityKind::Task,
        short_code: "T-1".into(),
        targets: targets.iter().map(|s| s.to_string()).collect(),
        source_column: "c-src".into(),
        work_class: work_class.map(str::to_string),
    };
    assert_eq!(drop_effect(&drag(&["c-2"], Some("planned")), "c-src", Some("planned")), None);
    let effect = drop_effect(&drag(&[], Some("planned")), "c-src", Some("support")).expect("legal");
    assert_eq!(effect.transition_to, None);
    assert_eq!(effect.set_work_class.as_deref(), Some("support"));
    let effect = drop_effect(&drag(&["c-2"], Some("support")), "c-2", Some("support")).expect("legal");
    assert_eq!(effect.transition_to.as_deref(), Some("c-2"));
    assert_eq!(effect.set_work_class, None);
    let effect = drop_effect(&drag(&["c-2"], Some("planned")), "c-2", Some("support")).expect("legal");
    assert_eq!(effect.transition_to.as_deref(), Some("c-2"));
    assert_eq!(effect.set_work_class.as_deref(), Some("support"));
    assert_eq!(drop_effect(&drag(&["c-2"], Some("planned")), "c-3", Some("support")), None);
    let effect = drop_effect(&drag(&["c-2"], None), "c-2", None).expect("legal");
    assert_eq!(effect.transition_to.as_deref(), Some("c-2"));
    assert_eq!(drop_effect(&drag(&["c-2"], None), "c-src", None), None);
    assert_eq!(drop_effect(&drag(&[], None), "c-src", Some("support")), None);
}

#[test]
fn accents_follow_level_and_kind() {
    assert_eq!(level_color("strategy"), Token::Violet);
    assert_eq!(level_color("elsewhere"), Token::Skip);
    assert_eq!(kind_color(EntityKind::Task), Token::Teal);
    assert_eq!(create_capability(EntityKind::Initiative), "manage_initiatives");
}

fn card(kind: EntityKind, repository: Option<&str>) -> CardModel {
    CardModel {
        kind,
        short_code: "X-1".into(),
        title: "x".into(),
        work_class: None,
        repository: repository.map(str::to_string),
    }
}

fn slugs(list: &[&str]) -> Vec<String> {
    list.iter().map(|s| s.to_string()).collect()
}

#[test]
fn selected_repos_parse_and_prune_against_the_board() {
    assert!(parse_repo_query(None).is_empty());
    assert!(parse_repo_query(Some("")).is_empty());
    assert_eq!(parse_repo_query(Some(",a,,b,a,")), slugs(&["a", "b"]));

    let known = slugs(&["payments-api", "platform-infra"]);
    let requested = parse_repo_query(Some("platform-infra,gone,payments-api"));
    assert_eq!(prune_repos(&requested, &known), slugs(&["platform-infra", "payments-api"]));
    assert!(prune_repos(&slugs(&["gone"]), &known).is_empty());
    assert!(prune_repos(&requested, &[]).is_empty());
    let clean = slugs(&["payments-api"]);
    assert_eq!(prune_repos(&clean, &known), clean);
}

#[test]
fn repo_lane_admits_by_binding() {
    let bound = card(EntityKind::Task, Some("payments-api"));
    let other = card(EntityKind::Task, Some("platform-infra"));
    let unbound = card(EntityKind::Task, None);
    let adr = card(EntityKind::Adr, None);

    let lane = RepoLane::Slug("payments-api".into());
    assert!(lane.admits(&bound));
    assert!(!lane.admits(&other));
    assert!(!lane.admits(&unbound));
    assert!(!lane.admits(&adr));

    assert!(!RepoLane::Unbound.admits(&bound));
    assert!(RepoLane::Unbound.admits(&unbound));
    assert!(RepoLane::Unbound.admits(&adr));

    assert!(RepoLane::Any.admits(&bound));
    assert!(RepoLane::Any.admits(&adr));
}

#[test]
fn lens_filter_narrows_tasks_only() {
    let selected = slugs(&["payments-api"]);
    assert!(lens_admits(&card(EntityKind::Task, Some("payments-api")), &selected));
    assert!(!lens_admits(&card(EntityKind::Task, Some("platform-infra")), &selected));
    assert!(!lens_admits(&card(EntityKind::Task, None), &selected));
    assert!(lens_admits(&card(EntityKind::Initiative, None), &selected));
    assert!(lens_admits(&card(EntityKind::Adr, None), &selected));
    assert!(lens_admits(&card(EntityKind::Task, None), &[]));
    assert!(lens_admits(&card(EntityKind::Task, Some("platform-infra")), &[]));
}

#[test]
fn repo_lanes_follow_the_effective_selection() {
    let known = slugs(&["payments-api", "platform-infra"]);
    assert_eq!(
        repo_lanes(&[], &known),
        vec![Some("payments-api".to_string()), Some("platform-infra".to_string()), None]
    );
    assert_eq!(
        repo_lanes(&slugs(&["platform-infra"]), &known),
        vec![Some("platform-infra".to_string()), None]
    );
    assert_eq!(repo_lanes(&[], &slugs(&["only"])), vec![Some("only".to_string()), None]);
    assert_eq!(repo_lanes(&[], &[]), vec![None]);
}

#[test]
fn board_lookup_and_column_targets() {
    let boards = vec![board("b-1", "delivery", None), board("b-2", "adr", None)];
    assert_eq!(find_board(&boards, "b-2"), Some(1));
    assert_eq!(find_board(&boards, "nope"), None);
    let detail = BoardDetail {
        board: board("b-1", "delivery", None),
        columns: vec![
            BoardColumn { id: "c-1".into(), name: "Backlog".into(), position: 0 },
            BoardColumn { id: "c-2".into(), name: "Doing".into(), position: 1 },
        ],
        transitions: vec![
            BoardTransition { from_column_id: "c-1".into(), to_column_id: "c-2".into() },
            BoardTransition { from_column_id: "c-2".into(), to_column_id: "c-9".into() },
        ],
    };
    assert_eq!(
        kairos::board_data::column_targets(&detail, "c-1"),
        vec![("c-2".to_string(), "Doing".to_string())]
    );
    assert_eq!(
        kairos::board_data::column_targets(&detail, "c-2"),
        vec![("c-9".to_string(), String::new())]
    );
}

fn caps(list: &[&str]) -> Vec<String> {
    list.iter().map(|c| c.to_string()).collect()
}

#[test]
fn full_access_wins() {
    let mut flags = SelectionFlags::from_capabilities(&caps(&["*", "manage_tasks"]));
    assert!(flags.full_access);
    flags.singles = vec!["manage_tasks".into()];
    assert_eq!(compose_selection(&flags), vec!["*"]);
}

#[test]
fn family_glob_swallows_covered_singles() {
    let flags = SelectionFlags {
        full_access: false,
        manage_all: true,
        configure_all: false,
        singles: caps(&["manage_tasks", "administer_members", "transition_items", "configure_boards"]),
    };
    assert_eq!(
        compose_selection(&flags),
        caps(&["manage_*", "administer_members", "transition_items", "configure_boards"])
    );
}

#[test]
fn singles_round_trip() {
    let stored = caps(&["manage_tasks", "transition_items"]);
    let flags = SelectionFlags::from_capabilities(&stored);
    assert!(!flags.full_access && !flags.manage_all && !flags.configure_all);
    assert_eq!(compose_selection(&flags), stored);
}

#[test]
fn transition_glob_normalizes() {
    let flags = SelectionFlags::from_capabilities(&caps(&["transition_*"]));
    assert_eq!(compose_selection(&flags), caps(&["transition_items"]));
}

#[test]
fn empty_selection_is_empty() {
    assert!(compose_selection(&SelectionFlags::default()).is_empty());
}

#[test]
fn editor_state_round_trips_through_flags() {
    let editor = EditorState::from_capabilities(&caps(&["configure_*", "manage_adrs"]));
    assert!(editor.configure_all && editor.manage_adrs && !editor.manage_tasks);
    assert_eq!(editor.selection(), caps(&["configure_*", "manage_adrs"]));
    assert!(EditorState::new().selection().is_empty());
}

fn tokens(access: &str, id: Option<&str>) -> TokenResponse {
    TokenResponse {
        access_token: access.to_string(),
        id_token: id.map(str::to_string),
        refresh_token: None,
        expires_in_ms: None,
    }
}

#[test]
fn bearer_selection_follows_api_bearer() {
    let full = tokens("ya29.opaque", Some("eyJ.id.jwt"));
    assert_eq!(full.bearer_for(ApiBearer::AccessToken), "ya29.opaque");
    assert_eq!(full.bearer_for(ApiBearer::IdToken), "eyJ.id.jwt");
}

#[test]
fn id_token_mode_falls_back_when_absent() {
    let no_id = tokens("access-only", None);
    assert_eq!(no_id.bearer_for(ApiBearer::IdToken), "access-only");
}

#[test]
fn api_bearer_defaults_to_access_token_when_absent() {
    assert_eq!(ApiBearer::default(), ApiBearer::AccessToken);
}

fn config(issuer: Option<&str>, endpoint: Option<&str>, local_auth: bool) -> AuthConfig {
    AuthConfig {
        issuer: issuer.map(str::to_string),
        client_id: "kairos-web".into(),
        authorization_endpoint: endpoint.map(str::to_string),
        api_bearer: ApiBearer::AccessToken,
        local_auth,
    }
}

#[test]
fn a_deployment_with_no_issuer_parses_and_offers_no_sso() {
    let c = config(None, None, true);
    assert!(!c.can_sso(), "no endpoint to redirect to");
    assert!(c.local_auth, "but there is a password form");
    assert!(authorize_redirect(&c, "https://app", "s", "c").unwrap_err().contains("no identity provider"));
}

#[test]
fn both_paths_at_once_is_representable() {
    let c = config(Some("https://idp.example"), Some("https://idp.example/auth"), true);
    assert!(c.can_sso() && c.local_auth);
}

#[test]
fn a_pre_t0208_server_payload_still_parses() {
    let c = config(Some("https://idp.example"), Some("https://idp.example/auth"), false);
    assert!(c.can_sso());
    assert!(!c.local_auth);
}

#[test]
fn authorize_redirect_carries_the_pkce_parameters() {
    let c = config(Some("https://idp"), Some("https://idp/auth"), false);
    let url = authorize_redirect(&c, "https://app.test", "st/1", "ch").unwrap();
    assert_eq!(
        url,
        "https://idp/auth?response_type=code&client_id=kairos-web&redirect_uri=https%3A%2F%2Fapp.test%2Fcallback&scope=openid%20profile%20email%20offline_access&state=st%2F1&code_challenge=ch&code_challenge_method=S256"
    );
}

fn callback(error: Option<&str>, code: Option<&str>, state: Option<&str>, expected: Option<&str>) -> CallbackInput {
    CallbackInput {
        error: error.map(str::to_string),
        error_description: None,
        code: code.map(str::to_string),
        state: state.map(str::to_string),
        verifier: Some("v".into()),
        expected_state: expected.map(str::to_string),
    }
}

#[test]
fn callback_checks_run_in_order() {
    assert_eq!(
        check_callback(&callback(Some("access_denied"), None, None, None)).unwrap_err(),
        "the issuer rejected the login: access_denied"
    );
    assert_eq!(
        check_callback(&callback(None, None, Some("s"), Some("s"))).unwrap_err(),
        "callback is missing ?code"
    );
    assert_eq!(
        check_callback(&callback(None, Some("c"), Some("s"), Some("t"))).unwrap_err(),
        "state mismatch \u{2014} possible CSRF, login aborted"
    );
    assert_eq!(
        check_callback(&callback(None, Some("c"), Some("s"), Some("s"))).unwrap(),
        ("c".to_string(), "v".to_string())
    );
}

#[test]
fn token_bodies_and_refresh_plan() {
    assert_eq!(
        code_exchange_body("x/y", "https://a/callback", "web", "ver"),
        "grant_type=authorization_code&code=x%2Fy&redirect_uri=https%3A%2F%2Fa%2Fcallback&client_id=web&code_verifier=ver"
    );
    assert_eq!(refresh_body("r+1", "web"), "grant_type=refresh_token&refresh_token=r%2B1&client_id=web");
    let mut t = tokens("a", Some("i"));
    t.refresh_token = Some("r".into());
    t.expires_in_ms = Some(3_600_000);
    let (session, delay) = install_plan(&t, ApiBearer::IdToken);
    assert_eq!(session.access_token, "i");
    assert_eq!(delay, Some(3_540_000));
    t.expires_in_ms = Some(10_000);
    assert_eq!(install_plan(&t, ApiBearer::AccessToken).1, Some(5_000));
    t.refresh_token = None;
    assert_eq!(install_plan(&t, ApiBearer::AccessToken).1, None);
}

#[test]
fn base64url_matches_rfc4648_vectors() {
    assert_eq!(base64url(b""), "");
    assert_eq!(base64url(b"f"), "Zg");
    assert_eq!(base64url(b"fo"), "Zm8");
    assert_eq!(base64url(b"foo"), "Zm9v");
    assert_eq!(base64url(b"foob"), "Zm9vYg");
    assert_eq!(base64url(b"fooba"), "Zm9vYmE");
    assert_eq!(base64url(b"foobar"), "Zm9vYmFy");
}

#[test]
fn base64url_uses_urlsafe_alphabet() {
    let encoded = base64url(&[0xfb, 0xff, 0xfe]);
    assert!(!encoded.contains('+') && !encoded.contains('/'));
    assert_eq!(encoded, "-__-");
}

#[test]
fn form_encoding_escapes_reserved_characters() {
    assert_eq!(form_component("abc-._~XYZ09"), "abc-._~XYZ09");
    assert_eq!(form_component("a b&c=d"), "a%20b%26c%3Dd");
    assert_eq!(
        form_encode(&[("grant_type", "authorization_code"), ("code", "x/y+z")]),
        "grant_type=authorization_code&code=x%2Fy%2Bz"
    );
}

#[test]
fn uri_components_keep_the_mark_characters() {
    assert_eq!(uri_component("a!*'()b c"), "a!*'()b%20c");
    assert_eq!(form_component("é"), "%C3%A9");
}

#[test]
fn escaped_values_carry_no_separators() {
    let raw = "a b&c=d/e?f#g+h";
    for escaped in [form_component(raw), uri_component(raw)] {
        assert!(!escaped.contains(|c| "&=+#?/ ".contains(c)));
    }
    assert_eq!(uri_component(raw), "a%20b%26c%3Dd%2Fe%3Ff%23g%2Bh");
}

#[test]
fn short_code_family_mapping() {
    assert_eq!(family_of_short_code("DEMO-S-0001"), Some("strategies"));
    assert_eq!(family_of_short_code("DEMO-I-0002"), Some("initiatives"));
    assert_eq!(family_of_short_code("KAIROS-T-0044"), Some("tasks"));
    assert_eq!(family_of_short_code("DEMO-D-0003"), Some("documents"));
    assert_eq!(family_of_short_code("A-A-9999"), Some("adrs"));
    assert_eq!(family_of_short_code("DEMO-T-10000"), Some("tasks"));
    for bogus in [
        "",
        "DEMO",
        "DEMO-X-0001",
        "demo-t-0001",
        "-T-0001",
        "DEMO-T-",
        "DEMO-T-12a4",
        "plain text",
    ] {
        assert_eq!(family_of_short_code(bogus), None, "{bogus:?} must not resolve");
    }
}

#[test]
fn query_encoding_escapes_reserved() {
    assert_eq!(encode_query("2026-07-14T00:00:00Z"), "2026-07-14T00%3A00%3A00Z");
    assert_eq!(
        encode_query("2026-07-14T00:00:00+02:00"),
        "2026-07-14T00%3A00%3A00%2B02%3A00"
    );
    assert_eq!(encode_query("abc-._~XYZ09"), "abc-._~XYZ09");
}

#[test]
fn feed_query_adds_only_the_filters_in_use() {
    assert_eq!(feed_query(50, None, "", "", ""), "limit=25&offset=50");
    assert_eq!(
        feed_query(0, Some("e-1"), "u 1", "create", " 2026-07-14T00:00:00Z "),
        "limit=25&offset=0&entity_id=e-1&actor_id=u%201&action=create&since=2026-07-14T00%3A00%3A00Z"
    );
}

#[test]
fn when_formatting() {
    assert_eq!(format_when("2026-07-14T23:10:11.123456Z"), "2026-07-14 23:10:11");
    assert_eq!(format_when("2026-07-14T23:10:11Z"), "2026-07-14 23:10:11");
    assert_eq!(format_when("not a timestamp"), "not a timestamp");
}

#[test]
fn action_colors_cover_the_vocabulary() {
    for action in [
        "transition",
        "create",
        "delete",
        "relationship_add",
        "relationship_remove",
        "capability_grant",
        "capability_revoke",
        "board_config",
    ] {
        let _accent: Token = action_color(action);
    }
    assert_eq!(action_color("retention_sweep"), Token::Muted);
    assert_eq!(action_color("create"), Token::Okay);
}

#[test]
fn diff_lines_marks_changes() {
    let old = "alpha\nbravo\ncharlie\n";
    let new = "alpha\nBRAVO\ncharlie\ndelta\n";
    let lines = diff_lines(old, new);
    let rendered: Vec<(char, &str)> = lines.iter().map(|l| (l.sign, l.text.as_str())).collect();
    assert_eq!(
        rendered,
        vec![(' ', "alpha"), ('-', "bravo"), ('+', "BRAVO"), (' ', "charlie"), ('+', "delta")]
    );
    assert!(diff_lines("same\n", "same\n").iter().all(|l| l.sign == ' '));
}

#[test]
fn diff_line_styles_by_sign() {
    assert!(diff_line_style('+').ends_with("color:var(--ok);"));
    assert!(diff_line_style('-').ends_with("color:var(--bad);"));
    assert!(diff_line_style(' ').ends_with("color:var(--muted);"));
}

#[test]
fn actor_labels_resolve_or_shorten() {
    let members = vec![("6e4ff04d-1c92".to_string(), "alice".to_string())];
    assert_eq!(actor_label(&members, "6e4ff04d-1c92"), "alice");
    assert_eq!(actor_label(&members, "b7a7f5b6-83fb-46f6-a3ed-9a0d1a11e001"), "b7a7f5b6\u{2026}");
    assert_eq!(actor_label(&members, "short"), "short\u{2026}");
}

#[test]
fn member_options_show_name_and_email() {
    let m = Member { user_id: "u".into(), email: "a@b".into(), display_name: "alice".into() };
    assert_eq!(member_option(&m), "alice <a@b>");
}

#[test]
fn tab_hrefs_never_emit_an_empty_code() {
    assert_eq!(tab_hrefs(""), None);
    let (details, graph) = tab_hrefs("DEMO-T-0007").expect("resolved code");
    assert_eq!(details, "/items/DEMO-T-0007");
    assert_eq!(graph, "/items/DEMO-T-0007?view=graph");
}

#[test]
fn put_away_when_reads_as_a_moment() {
    assert_eq!(put_away_when("2026-09-23T11:30:07.479107Z"), "2026-09-23 11:30 UTC");
    assert_eq!(put_away_when("2026-09-23T11:30:07+00:00"), "2026-09-23 11:30 UTC");
    assert_eq!(put_away_when("not a timestamp"), "not a timestamp");
}

#[test]
fn restore_asks_for_the_archive_capability() {
    assert_eq!(manage_capability(Family::Strategy), "manage_strategies");
    assert_eq!(manage_capability(Family::Initiative), "manage_initiatives");
    assert_eq!(manage_capability(Family::Task), "manage_tasks");
    assert_eq!(manage_capability(Family::Document), "manage_documents");
    assert_eq!(manage_capability(Family::Adr), "manage_adrs");
}

#[test]
fn relationship_labels_read_from_the_items_side() {
    assert_eq!(relationship_label("parent", true), "children");
    assert_eq!(relationship_label("parent", false), "parent");
    assert_eq!(relationship_label("blocks", false), "blocked by");
    assert_eq!(relationship_label("supports", true), "supporting material");
    assert_eq!(relationship_label("informs", false), "informed by");
    assert_eq!(relationship_label("supersedes", false), "superseded by");
    assert_eq!(relationship_label("mystery", true), "mystery (outgoing)");
}

#[test]
fn state_accents_and_item_links() {
    assert_eq!(lifecycle_color("published"), Token::Okay);
    assert_eq!(lifecycle_color("draft"), Token::Muted);
    assert_eq!(link_state_color("merged"), Token::Violet);
    assert_eq!(item_url("https://app", "DEMO-T-1"), "https://app/items/DEMO-T-1");
}

#[test]
fn api_errors_read_as_one_line() {
    let e = error_from_envelope(422, "{}", Some(("DUPLICATE_COLUMN_NAME", "taken")));
    assert_eq!(describe(&e), "DUPLICATE_COLUMN_NAME: taken");
    let raw = error_from_envelope(502, "bad gateway", None);
    assert_eq!(describe(&raw), "bad gateway");
    assert_eq!(describe(&ApiError::Network), "Could not reach the server.");
}

#[test]
fn only_the_current_token_expires_on_401() {
    assert!(should_expire_session(401, Some("t"), Some("t")));
    assert!(!should_expire_session(401, None, Some("t")));
    assert!(!should_expire_session(401, Some("old"), Some("new")));
    assert!(!should_expire_session(403, Some("t"), Some("t")));
}

#[test]
fn column_models_order_cards_and_offer_only_transitions() {
    let col = |id: &str, name: &str, position: i32| BoardColumn { id: id.into(), name: name.into(), position };
    let detail = BoardDetail {
        board: board("b-1", "delivery", None),
        columns: vec![col("c-1", "Backlog", 0), col("c-2", "Doing", 1)],
        transitions: vec![BoardTransition { from_column_id: "c-1".into(), to_column_id: "c-2".into() }],
    };
    let group = BoardColumnItems {
        column: col("c-1", "Backlog", 0),
        strategies: vec![Strategy { short_code: "DEMO-S-0001".into(), title: "S".into() }],
        initiatives: vec![Initiative {
            short_code: "DEMO-I-0002".into(),
            title: "I".into(),
            complexity: Some("m".into()),
            is_bucket: true,
            bucket_type: Some("bug".into()),
        }],
        tasks: vec![
            Task { short_code: "DEMO-T-0003".into(), title: "T".into(), task_type: "tech_debt".into() },
            Task { short_code: "DEMO-T-0004".into(), title: "U".into(), task_type: "task".into() },
        ],
        adrs: vec![Adr { short_code: "DEMO-A-0005".into(), title: "A".into(), decision_date: Some("2026-06-30".into()) }],
    };
    let empty = BoardColumnItems {
        column: col("c-2", "Doing", 1),
        strategies: vec![],
        initiatives: vec![],
        tasks: vec![],
        adrs: vec![],
    };
    let view = BoardView {
        detail,
        items: BoardItemsResponse { board: board("b-1", "delivery", None), columns: vec![group, empty] },
    };
    let models = column_models(&view);
    assert_eq!(models.len(), 2);
    assert_eq!(models[0].targets, vec![("c-2".to_string(), "Doing".to_string())]);
    assert!(models[1].targets.is_empty());
    let codes: Vec<&str> = models[0].cards.iter().map(|c| c.short_code.as_str()).collect();
    assert_eq!(codes, vec!["DEMO-S-0001", "DEMO-I-0002", "DEMO-T-0003", "DEMO-T-0004", "DEMO-A-0005"]);
    assert_eq!(
        models[0].cards[1].meta,
        vec![("complexity m".to_string(), Token::Ice), ("bucket \u{b7} bug".to_string(), Token::Gold)]
    );
    assert_eq!(models[0].cards[2].meta, vec![("tech debt".to_string(), Token::Gold)]);
    assert!(models[0].cards[3].meta.is_empty());
    assert_eq!(models[0].cards[4].meta, vec![("decided 2026-06-30".to_string(), Token::Violet)]);
    assert!(models[1].cards.is_empty());
}

fn new_item(title: &str, content: &str) -> NewItem {
    NewItem {
        title: title.into(),
        content: content.into(),
        hypothesis: None,
        complexity: None,
        task_type: None,
        team_id: None,
        decision_maker: None,
        decision_date: None,
    }
}

#[test]
fn create_requests_serialize_wire_shape() {
    let mut item = new_item("T", "body");
    item.task_type = Some("bug".into());
    let task = create_request_body(EntityKind::Task, "b-1", "c-1", &item);
    let task_value: serde_json::Value = serde_json::from_str(&task).expect("parses");
    let expected: serde_json::Value = serde_json::from_str(
        r#"{"board_id": "b-1", "column_id": "c-1", "title": "T", "content": "body", "task_type": "bug"}"#,
    )
    .unwrap();
    assert_eq!(task_value, expected);

    let doc = document_request_body("PRD: x", Some("t-1"), "DEMO-I-0002");
    let doc_value: serde_json::Value = serde_json::from_str(&doc).expect("parses");
    let expected: serde_json::Value = serde_json::from_str(
        r#"{"title": "PRD: x", "template_id": "t-1", "parent_short_code": "DEMO-I-0002"}"#,
    )
    .unwrap();
    assert_eq!(doc_value, expected);
}

#[test]
fn create_bodies_are_compact_and_escaped() {
    let mut item = new_item("say \"hi\"\n", "a\\b");
    item.hypothesis = Some("h".into());
    assert_eq!(
        create_request_body(EntityKind::Strategy, "b", "c", &item),
        r#"{"board_id":"b","column_id":"c","title":"say \"hi\"\n","content":"a\\b","hypothesis":"h"}"#
    );
    let adr = create_request_body(EntityKind::Adr, "b", "c", &new_item("A", ""));
    assert_eq!(adr, r#"{"board_id":"b","column_id":"c","title":"A","content":""}"#);
    assert_eq!(document_request_body("D", None, "X-1"), r#"{"title":"D","parent_short_code":"X-1"}"#);
    let serde_body = serde_json::to_string(&serde_json::Value::String("\u{1}\t".into())).unwrap();
    let ours = document_request_body("\u{1}\t", None, "p");
    assert!(ours.starts_with(&format!("{{\"title\":{}", serde_body)));
}

#[test]
fn render_diff_signs_and_strips_newlines() {
    let changes = vec![
        (LineChange::Equal, "same\n".to_string()),
        (LineChange::Delete, "old\r\n".to_string()),
        (LineChange::Insert, "new\n\n".to_string()),
    ];
    let lines = render_diff(&changes);
    let got: Vec<(char, &str)> = lines.iter().map(|l| (l.sign, l.text.as_str())).collect();
    assert_eq!(got, vec![(' ', "same"), ('-', "old\r"), ('+', "new")]);
}

#[test]
fn only_timestamps_are_reformatted() {
    assert_eq!(put_away_when("Total"), "Total");
    assert_eq!(format_when("Total"), "Total");
    assert_eq!(format_when("2026-13-01T00:00:00Z"), "2026-13-01T00:00:00Z");
    assert_eq!(format_when("2026-07-14T23:10:11.Z"), "2026-07-14T23:10:11.Z");
    assert_eq!(format_when("2026-07-14T23:10:11+02:00"), "2026-07-14 23:10:11");
    assert_eq!(put_away_when("2026-07-14T23:10:11.5-05:30"), "2026-07-14 23:10 UTC");
}

fn utf16(s: &str) -> Vec<u16> {
    s.encode_utf16().collect()
}

#[test]
fn toolbar_wraps_the_selection_or_a_placeholder() {
    let text = utf16("say hi now");
    let (out, cursor) = apply_syntax(&text, 4, 6, "**", "**", "bold");
    assert_eq!(String::from_utf16_lossy(&out), "say **hi** now");
    assert_eq!(cursor, 10);
    let (out, cursor) = apply_syntax(&text, 0, 0, "## ", "", "Heading");
    assert_eq!(String::from_utf16_lossy(&out), "## Headingsay hi now");
    assert_eq!(cursor, 10);
    let (out, cursor) = apply_syntax(&text, 99, 3, "[", "](url)", "text");
    assert_eq!(String::from_utf16_lossy(&out), "say hi now[text](url)");
    assert_eq!(cursor, 21);
    let emoji = utf16("a\u{1F600}b");
    let (out, cursor) = apply_syntax(&emoji, 1, 3, "`", "`", "code");
    assert_eq!(String::from_utf16_lossy(&out), "a`\u{1F600}`b");
    assert_eq!(cursor, 5);
    let (out, _) = apply_syntax(&emoji, 1, 2, "*", "*", "italic");
    assert_eq!(out, utf16("a*\u{FFFD}*").into_iter().chain(emoji[2..].iter().copied()).collect::<Vec<u16>>());
}

#[test]
fn conflict_dialog_offers_three_ways_out() {
    let fresh = || DraftEditor::new("T".into(), "body".into(), 3);
    let server = || ServerCopy { version: 5, title: "T2".into(), content: "theirs".into() };
    let (s, a) = editor_step(fresh(), EditorEvent::Edit("T".into(), "mine".into()));
    assert!(matches!(a, EditorAction::Nothing) && s.dirty() && s.save_enabled());
    let (s, a) = editor_step(s, EditorEvent::Save);
    assert!(matches!(a, EditorAction::Submit(3)) && s.saving && !s.save_enabled());
    let (s, a) = editor_step(s, EditorEvent::Save);
    assert!(matches!(a, EditorAction::Nothing));
    let (conflicted, _) = editor_step(s, EditorEvent::SaveConflict(server()));
    assert!(!conflicted.saving && conflicted.conflict.is_some());

    let (s, a) = editor_step(conflicted, EditorEvent::KeepMine);
    assert!(matches!(a, EditorAction::Submit(5)));
    let (s, a) = editor_step(s, EditorEvent::SaveOk(6));
    assert!(matches!(a, EditorAction::Saved(6)) && s.base_version == 6 && s.conflict.is_none());

    let (c, _) = editor_step(fresh(), EditorEvent::SaveConflict(server()));
    let (s, _) = editor_step(c, EditorEvent::TakeTheirs);
    assert_eq!((s.title.as_str(), s.content.as_str(), s.base_version), ("T2", "theirs", 5));
    assert!(!s.dirty() && s.conflict.is_none() && s.reference.is_none());

    let (c, _) = editor_step(fresh(), EditorEvent::Edit("T".into(), "mine".into()));
    let (c, _) = editor_step(c, EditorEvent::SaveConflict(server()));
    let (s, _) = editor_step(c, EditorEvent::MergeManually);
    assert_eq!((s.content.as_str(), s.base_version), ("mine", 5));
    assert_eq!(s.reference.as_ref().map(|r| r.content.as_str()), Some("theirs"));
    let (s, _) = editor_step(s, EditorEvent::DismissReference);
    assert!(s.reference.is_none());

    let (s, _) = editor_step(fresh(), EditorEvent::Save);
    let (s, _) = editor_step(s, EditorEvent::SaveFailed("boom".into()));
    assert_eq!(s.error.as_deref(), Some("boom"));
    assert!(!s.saving);
}

#[test]
fn entry_column_is_the_first_lowest_position() {
    let col = |id: &str, position: i32| BoardColumn { id: id.into(), name: id.into(), position };
    assert_eq!(entry_column(&[]), None);
    assert_eq!(entry_column(&[col("b", 2), col("a", 0), col("c", 0)]), Some(1));
    assert_eq!(entry_column(&[col("x", 5)]), Some(0));
}

#[test]
fn lens_chips_are_sorted_task_repositories_once_each() {
    let cards = vec![
        card(EntityKind::Task, Some("web")),
        card(EntityKind::Task, Some("api")),
        card(EntityKind::Task, None),
        card(EntityKind::Task, Some("web")),
        card(EntityKind::Initiative, Some("ops")),
        card(EntityKind::Task, Some("Zeta")),
    ];
    assert_eq!(board_repos(&cards), slugs(&["Zeta", "api", "web"]));
    assert!(board_repos(&[]).is_empty());
}

#[test]
fn chip_toggle_adds_or_drops_and_writes_the_query() {
    let (sel, q) = toggle_repo(&slugs(&["api", "web"]), "api");
    assert_eq!((sel, q.as_deref()), (slugs(&["web"]), Some("web")));
    let (sel, q) = toggle_repo(&slugs(&["web"]), "api");
    assert_eq!((sel, q.as_deref()), (slugs(&["web", "api"]), Some("web,api")));
    let (sel, q) = toggle_repo(&slugs(&["web"]), "web");
    assert!(sel.is_empty() && q.is_none());
    assert_eq!(lens_controls(0, None, None), (false, false, false));
    assert_eq!(lens_controls(1, None, None), (true, false, false));
    assert_eq!(lens_controls(2, None, Some("1")), (true, true, true));
    assert_eq!(lens_controls(0, None, Some("0")), (true, false, false));
}

#[test]
fn rollback_outcomes_map_to_notices() {
    let (n, refresh) = rollback_notice(3, Ok(7));
    assert!(refresh);
    assert_eq!(notice_text(&n), "Rolled back: the v3 snapshot was copied forward as new version v7.");
    let conflict = ApiError::Http { status: 409, message: "stale".into(), code: None };
    let (n, refresh) = rollback_notice(3, Err(conflict));
    assert!(refresh && matches!(n, RollbackNotice::Conflict(_)));
    assert_eq!(
        notice_text(&n),
        "Someone saved a newer version while rolling back: stale. The list below has been refreshed \u{2014} pick a version and try again."
    );
    let (n, refresh) = rollback_notice(3, Err(ApiError::Network));
    assert!(!refresh);
    assert_eq!(notice_text(&n), "the server is unreachable");
    let other = ApiError::Http { status: 500, message: "boom".into(), code: None };
    let (n, _) = rollback_notice(3, Err(other));
    assert!(matches!(n, RollbackNotice::Failed(ref m) if m == "boom"));
    let (n, _) = rollback_notice(3, Err(ApiError::Unknown("odd".into())));
    assert_eq!(notice_text(&n), "odd");
}

#[test]
fn adding_a_member_needs_a_member_and_a_capability() {
    let member = |id: &str, email: &str| OrgMember {
        user_id: id.into(),
        email: email.into(),
        display_name: id.into(),
        role: "member".into(),
    };
    let members = vec![member("u1", "a@x"), member("u2", "b@x"), member("u3", "b@x")];
    let caps = slugs(&["transition_items"]);
    assert_eq!(member_to_add(&members, "b@x", &caps), Ok("u2".to_string()));
    assert_eq!(member_to_add(&members, "c@x", &caps), Err("Pick an organization member to add.".to_string()));
    assert_eq!(
        member_to_add(&members, "a@x", &[]),
        Err("Select at least one capability \u{2014} grants are whitelist-only (A-0006).".to_string())
    );
    assert_eq!(check_grant_update(&caps), Ok(()));
    assert_eq!(
        check_grant_update(&[]),
        Err("A member needs at least one capability \u{2014} use Remove to revoke membership.".to_string())
    );
}

#[test]
fn create_form_maps_blank_fields_to_absent() {
    let item = new_item_from_form(
        "T".into(),
        "body".into(),
        "   ".into(),
        "none".into(),
        "bug".into(),
        Some("t1".into()),
        "alice".into(),
        "".into(),
    );
    assert_eq!((item.title.as_str(), item.content.as_str()), ("T", "body"));
    assert_eq!(item.hypothesis, None);
    assert_eq!(item.complexity, None);
    assert_eq!(item.task_type.as_deref(), Some("bug"));
    assert_eq!(item.team_id.as_deref(), Some("t1"));
    assert_eq!(item.decision_maker.as_deref(), Some("alice"));
    assert_eq!(item.decision_date, None);
    let item = new_item_from_form("".into(), "".into(), " h ".into(), "m".into(), "task".into(), None, "".into(), "2026-01-01".into());
    assert_eq!(item.hypothesis.as_deref(), Some(" h "));
    assert_eq!(item.complexity.as_deref(), Some("m"));
    assert_eq!(item.decision_date.as_deref(), Some("2026-01-01"));
}

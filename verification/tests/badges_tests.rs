use twitch_chat_logger::badges::parse_badges;
use twitch_chat_logger::badges::parse_i32;
use twitch_chat_logger::badges::Badges;
use twitch_chat_logger::badges::ChannelStatus;
use twitch_chat_logger::badges::Subscriber;
use twitch_chat_logger::event::Badge;

fn badge(name: &str, version: &str) -> Badge {
    Badge { name: name.to_string(), version: version.to_string() }
}

#[test]
fn badges_test_parse_badges() {
    let valid_strings = ["broadcaster", "moderator", "vip"];
    for s in valid_strings {
        let test_badges = vec![badge("beep", "6"), badge(s, "1")];
        let permission_badge = parse_badges(&test_badges);
        let permission_badge = permission_badge.channel_status;
        assert!(permission_badge.is_some());
    }

    let test_badges = vec![badge("adsad", "202"), badge("subscriber", "90210")];
    let sub_badge = parse_badges(&test_badges);
    let sub_badge = sub_badge.sub_badge_month;
    assert_eq!(sub_badge, Some(Subscriber::Month(90210)));

    let test_badges = vec![badge("partner", "1"), badge("west", "90")];
    let sub_badge = parse_badges(&test_badges);
    assert!(sub_badge.partner);

    let test_badges = vec![badge("founder", "0")];
    let sub_badge = parse_badges(&test_badges);
    assert_eq!(Some(Subscriber::Founder), sub_badge.sub_badge_month);
}

#[test]
fn chat_logger_test_parse_badges() {
    let valid_strings = ["broadcaster", "moderator", "vip"];
    for s in valid_strings {
        let test_badges = vec![badge("beep", "6"), badge(s, "1")];
        let permission_badge = parse_badges(&test_badges);
        let permission_badge = permission_badge.channel_status;
        assert!(permission_badge.is_some());
    }

    let test_badges = vec![badge("adsad", "202"), badge("subscriber", "90210")];
    let sub_badge = parse_badges(&test_badges);
    let sub_badge = sub_badge.sub_badge_month;
    assert_eq!(sub_badge, Some(Subscriber::Month(90210)));

    let test_badges = vec![badge("partner", "1"), badge("west", "90")];
    let sub_badge = parse_badges(&test_badges);
    assert!(sub_badge.partner);

    let test_badges = vec![badge("founder", "0")];
    let sub_badge = parse_badges(&test_badges);
    assert_eq!(Some(Subscriber::Founder), sub_badge.sub_badge_month);
}

#[test]
fn badges_display_channel_status() {
    let statuses = [
        ChannelStatus::Broadcaster,
        ChannelStatus::Moderator,
        ChannelStatus::Vip,
    ]
    .map(|x| x.symbol().to_string());
    assert_ne!(statuses[0], statuses[1]);
    assert_ne!(statuses[1], statuses[2]);
    assert_ne!(statuses[0], statuses[2]);
}

#[test]
fn chat_logger_display_channel_status() {
    let statuses = [
        ChannelStatus::Broadcaster,
        ChannelStatus::Moderator,
        ChannelStatus::Vip,
    ]
    .map(|x| x.symbol().to_string());
    assert_ne!(statuses[0], statuses[1]);
    assert_ne!(statuses[1], statuses[2]);
    assert_ne!(statuses[0], statuses[2]);
}

#[test]
fn badges_display_badges() {
    let statuses = [
        ChannelStatus::Broadcaster,
        ChannelStatus::Moderator,
        ChannelStatus::Vip,
    ]
    .into_iter()
    .map(|x| (Some(x), x.symbol().to_string()))
    .chain(std::iter::once((None, "".to_string())));
    let partner_badge = [(false, ""), (true, "\u{2705}")].into_iter();
    let sub_badge_month = None;

    for ((status, status_expected), (partner, partner_expected)) in statuses.zip(partner_badge) {
        let badge = Badges { channel_status: status, sub_badge_month, partner };
        let badge_str = badge.render();
        assert!(
            badge_str.contains(&status_expected),
            "Expected {badge:?} to hold {status_expected:?}"
        );
        assert!(badge_str.contains(partner_expected));
    }
}

#[test]
fn chat_logger_display_badges() {
    let statuses = [
        ChannelStatus::Broadcaster,
        ChannelStatus::Moderator,
        ChannelStatus::Vip,
    ]
    .into_iter()
    .map(|x| (Some(x), x.symbol().to_string()))
    .chain(std::iter::once((None, "".to_string())));
    let partner_badge = [(false, ""), (true, "\u{2705}")].into_iter();
    let sub_badge_month = None;

    for ((status, status_expected), (partner, partner_expected)) in statuses.zip(partner_badge) {
        let badge = Badges { channel_status: status, sub_badge_month, partner };
        let badge_str = badge.render();
        assert!(
            badge_str.contains(&status_expected),
            "Expected {badge:?} to hold {status_expected:?}"
        );
        assert!(badge_str.contains(partner_expected));
    }
}

#[test]
fn parse_badges_empty_is_default() {
    let decoded = parse_badges(&vec![]);
    assert_eq!(decoded, Badges::default());
    assert_eq!(decoded.channel_status, None);
    assert_eq!(decoded.sub_badge_month, None);
    assert!(!decoded.partner);
}

#[test]
fn last_role_badge_wins() {
    let test_badges = vec![badge("moderator", "1"), badge("vip", "1")];
    let decoded = parse_badges(&test_badges);
    assert_eq!(decoded.channel_status, Some(ChannelStatus::Vip));
}

#[test]
fn founder_overrides_earlier_subscriber() {
    let test_badges = vec![badge("subscriber", "12"), badge("founder", "0")];
    let decoded = parse_badges(&test_badges);
    assert_eq!(decoded.sub_badge_month, Some(Subscriber::Founder));
}

#[test]
fn unparseable_subscriber_version_left_unset() {
    let test_badges = vec![badge("subscriber", "years")];
    let decoded = parse_badges(&test_badges);
    assert_eq!(decoded.sub_badge_month, None);
}

#[test]
fn parse_i32_values() {
    assert_eq!(parse_i32("90210"), Some(90210));
    assert_eq!(parse_i32("0"), Some(0));
    assert_eq!(parse_i32("+7"), Some(7));
    assert_eq!(parse_i32("-5"), Some(-5));
    assert_eq!(parse_i32("2147483647"), Some(2147483647));
    assert_eq!(parse_i32("-2147483648"), Some(-2147483648));
    assert_eq!(parse_i32("007"), Some(7));
}

#[test]
fn parse_i32_rejections() {
    assert_eq!(parse_i32(""), None);
    assert_eq!(parse_i32("+"), None);
    assert_eq!(parse_i32("-"), None);
    assert_eq!(parse_i32("12a"), None);
    assert_eq!(parse_i32("year2"), None);
    assert_eq!(parse_i32("2147483648"), None);
    assert_eq!(parse_i32("-2147483649"), None);
    assert_eq!(parse_i32("99999999999999999999"), None);
}

//! Decoding a message's badge list into a small decorated-status value.
//!
//! The badge sequence is scanned once, in order; for each recognized badge
//! name the matching field is overwritten, so the last match in scan order
//! wins. Unrecognized names are ignored and no input is ever rejected.

use crate::event::BadgeView;
use crate::event::Badge;
use vstd::prelude::*;
use vstd::string::StrSliceExecFns;
use vstd::string::StringExecFns;

verus! {

broadcast use vstd::string::group_string_axioms;

/// Broadcaster/Moderator/Vip.
///
/// These are mutually exclusive in practice.
#[derive(Clone, Copy, Debug, PartialEq, Eq)]
pub enum ChannelStatus {
    Broadcaster,
    Moderator,
    Vip,
}

/// The subscription state derived from the badge list.
#[derive(Clone, Copy, Debug, PartialEq, Eq)]
pub enum Subscriber {
    Month(i32),
    Founder,
}

/// The badges in a chat message, decoded.
#[derive(Clone, Copy, Debug, PartialEq, Eq)]
pub struct Badges {
    pub channel_status: Option<ChannelStatus>,
    /// This is the count of the badge, not the total months subbed.
    pub sub_badge_month: Option<Subscriber>,
    pub partner: bool,
}

/// The all-unset decoded badge value.
pub open spec fn badges_unset() -> Badges {
    Badges { channel_status: None, sub_badge_month: None, partner: false }
}

impl Default for Badges {
    fn default() -> (r: Self)
        ensures
            r == badges_unset(),
    {
        Badges { channel_status: None, sub_badge_month: None, partner: false }
    }
}

/// Is `c` an ASCII decimal digit?
pub open spec fn is_digit(c: char) -> bool {
    48 <= c as u32 <= 57
}

/// The numeric value of the ASCII digit `c`.
pub open spec fn digit_val(c: char) -> nat {
    (c as u32 - 48) as nat
}

/// Does `s` consist of ASCII decimal digits only?
pub open spec fn all_digits(s: Seq<char>) -> bool {
    forall|i: int| 0 <= i < s.len() ==> is_digit(s[i])
}

/// The number denoted by the digit string `s`, most significant digit first.
pub open spec fn digits_val(s: Seq<char>) -> nat
    decreases s.len(),
{
    if s.len() == 0 {
        0
    } else {
        digits_val(s.drop_last()) * 10 + digit_val(s.last())
    }
}

/// Does `s` start with a minus sign?
pub open spec fn leading_minus(s: Seq<char>) -> bool {
    s.len() > 0 && s[0] == '-'
}

/// `s` with a single leading `+` or `-` sign removed, if it has one.
pub open spec fn digits_part(s: Seq<char>) -> Seq<char> {
    if s.len() > 0 && (s[0] == '-' || s[0] == '+') {
        s.skip(1)
    } else {
        s
    }
}

/// What parsing `s` as a 32-bit signed decimal integer yields: an optional
/// leading `+` or `-` sign followed by one or more ASCII digits, rejected on
/// any other character or when the value does not fit.
pub open spec fn spec_parse_i32(s: Seq<char>) -> Option<i32> {
    if digits_part(s).len() == 0 || !all_digits(digits_part(s)) {
        None
    } else if leading_minus(s) {
        if digits_val(digits_part(s)) <= 0x8000_0000 {
            Some((-(digits_val(digits_part(s)) as int)) as i32)
        } else {
            None
        }
    } else {
        if digits_val(digits_part(s)) <= 0x7fff_ffff {
            Some(digits_val(digits_part(s)) as i32)
        } else {
            None
        }
    }
}

/// Appending digits never decreases the denoted value.
pub proof fn lemma_digits_val_take_le(s: Seq<char>, i: int)
    requires
        0 <= i <= s.len(),
    ensures
        digits_val(s.take(i)) <= digits_val(s),
    decreases s.len() - i,
{
    if i < s.len() {
        let t = s.take(i + 1);
        assert(t.drop_last() =~= s.take(i));
        assert(digits_val(s.take(i)) <= digits_val(t));
        lemma_digits_val_take_le(s, i + 1);
        assert(s.take(s.len() as int) =~= s);
    } else {
        assert(s.take(i) =~= s);
    }
}

/// Parse a 32-bit signed decimal integer, as [`spec_parse_i32`] describes.
pub fn parse_i32(s: &str) -> (r: Option<i32>)
    ensures
        r == spec_parse_i32(s@),
{
    let len = s.unicode_len();
    if len == 0 {
        return None;
    }
    let first = s.get_char(0);
    let neg = first == '-';
    let start: usize = if first == '-' || first == '+' {
        1
    } else {
        0
    };
    if start == len {
        return None;
    }
    let ghost ds: Seq<char> = digits_part(s@);
    proof {
        assert(ds =~= s@.subrange(start as int, len as int));
    }
    let mut i: usize = start;
    let mut acc: u64 = 0;
    while i < len
        invariant
            start <= i <= len,
            len == s@.len(),
            start == 0 || start == 1,
            ds == digits_part(s@),
            ds =~= s@.subrange(start as int, len as int),
            acc == digits_val(s@.subrange(start as int, i as int)),
            acc <= 0x8000_0000,
            all_digits(s@.subrange(start as int, i as int)),
        decreases len - i,
    {
        let c = s.get_char(i);
        let u = c as u32;
        if !(48 <= u && u <= 57) {
            proof {
                assert(ds.len() == len - start);
                assert(ds[i - start] == s@.subrange(start as int, len as int)[i - start]);
                assert(ds[i - start] == s@[i as int]);
                assert(!is_digit(ds[i - start]));
                assert(!all_digits(ds));
                assert(spec_parse_i32(s@) is None);
            }
            return None;
        }
        let d: u64 = (u - 48) as u64;
        acc = acc * 10 + d;
        proof {
            let p = s@.subrange(start as int, i + 1 as int);
            assert(p.drop_last() =~= s@.subrange(start as int, i as int));
            assert(p.last() == s@[i as int]);
        }
        i = i + 1;
        if acc > 0x8000_0000 {
            proof {
                lemma_digits_val_take_le(ds, i - start);
                assert(ds.take(i - start) =~= s@.subrange(start as int, i as int));
                assert(digits_val(ds) >= acc);
                assert(spec_parse_i32(s@) is None);
            }
            return None;
        }
    }
    proof {
        assert(s@.subrange(start as int, len as int) =~= ds);
    }
    if neg {
        if acc == 0x8000_0000 {
            Some(-2147483648i32)
        } else {
            let v = acc as i32;
            Some(-v)
        }
    } else {
        if acc == 0x8000_0000 {
            None
        } else {
            Some(acc as i32)
        }
    }
}

/// One scan step of the badge decoder: how a single badge updates the
/// accumulated decoded value.
pub open spec fn decorate_step(acc: Badges, b: BadgeView) -> Badges {
    if b.name == "broadcaster"@ {
        Badges { channel_status: Some(ChannelStatus::Broadcaster), ..acc }
    } else if b.name == "moderator"@ {
        Badges { channel_status: Some(ChannelStatus::Moderator), ..acc }
    } else if b.name == "vip"@ {
        Badges { channel_status: Some(ChannelStatus::Vip), ..acc }
    } else if b.name == "subscriber"@ {
        Badges {
            sub_badge_month: match spec_parse_i32(b.version) {
                Some(n) => Some(Subscriber::Month(n)),
                None => None,
            },
            ..acc
        }
    } else if b.name == "founder"@ {
        Badges { sub_badge_month: Some(Subscriber::Founder), ..acc }
    } else if b.name == "partner"@ {
        Badges { partner: true, ..acc }
    } else {
        acc
    }
}

/// The decoded value of a whole badge sequence: a left-to-right scan of
/// [`decorate_step`] starting from the all-unset value.
pub open spec fn spec_decorate(badges: Seq<BadgeView>) -> Badges
    decreases badges.len(),
{
    if badges.len() == 0 {
        badges_unset()
    } else {
        decorate_step(spec_decorate(badges.drop_last()), badges.last())
    }
}

/// Decode a badge list into its decorated-status value.
///
/// The list is scanned once in order and the last matching badge wins for
/// each field; no input is rejected.
pub fn parse_badges(badges: &Vec<Badge>) -> (r: Badges)
    ensures
        r == spec_decorate(badges.deep_view()),
{
    let broadcaster = "broadcaster".to_owned();
    let moderator = "moderator".to_owned();
    let vip = "vip".to_owned();
    let subscriber = "subscriber".to_owned();
    let founder = "founder".to_owned();
    let partner_name = "partner".to_owned();
    let mut acc = Badges { channel_status: None, sub_badge_month: None, partner: false };
    let mut i: usize = 0;
    while i < badges.len()
        invariant
            i <= badges.len(),
            acc == spec_decorate(badges.deep_view().take(i as int)),
            broadcaster@ == "broadcaster"@,
            moderator@ == "moderator"@,
            vip@ == "vip"@,
            subscriber@ == "subscriber"@,
            founder@ == "founder"@,
            partner_name@ == "partner"@,
        decreases badges.len() - i,
    {
        let b = &badges[i];
        if b.name == broadcaster {
            acc = Badges { channel_status: Some(ChannelStatus::Broadcaster), ..acc };
        } else if b.name == moderator {
            acc = Badges { channel_status: Some(ChannelStatus::Moderator), ..acc };
        } else if b.name == vip {
            acc = Badges { channel_status: Some(ChannelStatus::Vip), ..acc };
        } else if b.name == subscriber {
            let parsed = parse_i32(b.version.as_str());
            acc = Badges {
                sub_badge_month: match parsed {
                    Some(n) => Some(Subscriber::Month(n)),
                    None => None,
                },
                ..acc
            };
        } else if b.name == founder {
            acc = Badges { sub_badge_month: Some(Subscriber::Founder), ..acc };
        } else if b.name == partner_name {
            acc = Badges { partner: true, ..acc };
        }
        proof {
            let pre = badges.deep_view().take(i as int);
            let post = badges.deep_view().take(i + 1 as int);
            assert(post.drop_last() =~= pre);
            assert(post.last() == badges.deep_view()[i as int]);
        }
        i = i + 1;
    }
    proof {
        assert(badges.deep_view().take(badges@.len() as int) =~= badges.deep_view());
    }
    acc
}

impl ChannelStatus {
    /// The glyph this role renders as.
    pub open spec fn spec_symbol(self) -> Seq<char> {
        match self {
            ChannelStatus::Broadcaster => "📹"@,
            ChannelStatus::Moderator => "🗡️"@,
            ChannelStatus::Vip => "💎"@,
        }
    }

    /// Render this role as its glyph.
    pub fn symbol(&self) -> (r: &'static str)
        ensures
            r@ == self.spec_symbol(),
    {
        match self {
            ChannelStatus::Broadcaster => "📹",
            ChannelStatus::Moderator => "🗡️",
            ChannelStatus::Vip => "💎",
        }
    }
}

impl Badges {
    /// What a decoded badge value renders as: an optional partner glyph
    /// followed by an optional role glyph. The subscription state is decoded
    /// but not rendered.
    pub open spec fn spec_render(self) -> Seq<char> {
        (if self.partner {
            "✅"@
        } else {
            Seq::<char>::empty()
        }) + (match self.channel_status {
            Some(c) => c.spec_symbol(),
            None => Seq::<char>::empty(),
        })
    }

    /// Render the decoded badges as their glyph string.
    pub fn render(&self) -> (r: String)
        ensures
            r@ == self.spec_render(),
    {
        let mut out = String::new();
        if self.partner {
            out.append("✅");
        }
        if let Some(c) = &self.channel_status {
            out.append(c.symbol());
        }
        proof {
            assert(out@ =~= self.spec_render());
        }
        out
    }
}

/// Is `n` one of the three role badge names?
pub open spec fn role_badge_name(n: Seq<char>) -> bool {
    n == "broadcaster"@ || n == "moderator"@ || n == "vip"@
}

/// The role a role badge name decodes to, following the same match order as
/// [`decorate_step`].
pub open spec fn role_of_name(n: Seq<char>) -> Option<ChannelStatus> {
    if n == "broadcaster"@ {
        Some(ChannelStatus::Broadcaster)
    } else if n == "moderator"@ {
        Some(ChannelStatus::Moderator)
    } else if n == "vip"@ {
        Some(ChannelStatus::Vip)
    } else {
        None
    }
}

/// Is `n` one of the two badge names that set the subscription state?
pub open spec fn sub_badge_name(n: Seq<char>) -> bool {
    n == "subscriber"@ || n == "founder"@
}

/// The subscription a subscriber badge's version string decodes to.
pub open spec fn month_of_version(v: Seq<char>) -> Option<Subscriber> {
    match spec_parse_i32(v) {
        Some(n) => Some(Subscriber::Month(n)),
        None => None,
    }
}

/// The decoder maps the empty badge sequence to the all-unset value.
pub proof fn lemma_decorate_empty()
    ensures
        spec_decorate(Seq::<BadgeView>::empty()) == badges_unset(),
{
}

/// A badge sequence whose only role badge (broadcaster, moderator or vip)
/// stands at index `i` decodes to exactly that badge's role and no other.
pub proof fn lemma_role_badge(badges: Seq<BadgeView>, i: int)
    requires
        0 <= i < badges.len(),
        role_badge_name(badges[i].name),
        forall|j: int| 0 <= j < badges.len() && j != i ==> !role_badge_name(badges[j].name),
    ensures
        spec_decorate(badges).channel_status == role_of_name(badges[i].name),
    decreases badges.len(),
{
    let prefix = badges.drop_last();
    if i == badges.len() - 1 {
        assert(spec_decorate(badges) == decorate_step(spec_decorate(prefix), badges[i]));
    } else {
        assert(forall|j: int| 0 <= j < prefix.len() ==> prefix[j] == badges[j]);
        lemma_role_badge(prefix, i);
        assert(!role_badge_name(badges.last().name));
    }
}

/// If the subscription badge standing last in scan order is a subscriber
/// badge, the decoded subscription is that badge's parsed month count
/// (unset when the version string does not parse). Badges after it may
/// still set roles or the partner flag, but none may be a subscriber or
/// founder badge, since the last match in scan order wins.
pub proof fn lemma_subscriber_badge(badges: Seq<BadgeView>, i: int)
    requires
        0 <= i < badges.len(),
        badges[i].name == "subscriber"@,
        forall|j: int| i < j < badges.len() ==> !sub_badge_name(badges[j].name),
    ensures
        spec_decorate(badges).sub_badge_month == month_of_version(badges[i].version),
    decreases badges.len(),
{
    reveal_strlit("subscriber");
    reveal_strlit("broadcaster");
    reveal_strlit("moderator");
    reveal_strlit("vip");
    let prefix = badges.drop_last();
    if i == badges.len() - 1 {
        let b = badges.last();
        assert(badges[i] == b);
        assert("subscriber"@.len() == 10);
        assert("broadcaster"@.len() == 11);
        assert("moderator"@.len() == 9);
        assert("vip"@.len() == 3);
        assert(b.name != "broadcaster"@);
        assert(b.name != "moderator"@);
        assert(b.name != "vip"@);
        assert(spec_decorate(badges) == decorate_step(spec_decorate(prefix), b));
        assert(decorate_step(spec_decorate(prefix), b).sub_badge_month == month_of_version(
            b.version,
        ));
    } else {
        assert(forall|j: int| 0 <= j < prefix.len() ==> prefix[j] == badges[j]);
        lemma_subscriber_badge(prefix, i);
        assert(!sub_badge_name(badges.last().name));
    }
}

/// A badge sequence containing a founder badge decodes to the `Founder`
/// subscription regardless of any subscriber badge standing earlier in scan
/// order; only a subscriber or founder badge after it could override it.
pub proof fn lemma_founder_badge(badges: Seq<BadgeView>, i: int)
    requires
        0 <= i < badges.len(),
        badges[i].name == "founder"@,
        forall|j: int| i < j < badges.len() ==> !sub_badge_name(badges[j].name),
    ensures
        spec_decorate(badges).sub_badge_month == Some(Subscriber::Founder),
    decreases badges.len(),
{
    reveal_strlit("founder");
    reveal_strlit("subscriber");
    reveal_strlit("broadcaster");
    reveal_strlit("moderator");
    reveal_strlit("vip");
    let prefix = badges.drop_last();
    if i == badges.len() - 1 {
        assert("founder"@.len() == 7);
        assert("subscriber"@.len() == 10);
        assert("broadcaster"@.len() == 11);
        assert("moderator"@.len() == 9);
        assert("vip"@.len() == 3);
        assert(spec_decorate(badges) == decorate_step(spec_decorate(prefix), badges[i]));
    } else {
        assert(forall|j: int| 0 <= j < prefix.len() ==> prefix[j] == badges[j]);
        lemma_founder_badge(prefix, i);
        assert(!sub_badge_name(badges.last().name));
    }
}

} // verus!

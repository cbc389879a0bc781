//! What a Java client is told when it has acknowledged its login.

use super::version::{
    supports_configuration_state, JavaMinecraftVersion, V_1_20_2, V_1_20_5, V_1_21, V_26_1,
};
use crate::gui::types::option_text;
use crate::ids::{derive_v3, uuid_v3, NAMESPACE_DNS};
use crate::skin_pack::url::{resource_url, resource_url_text};
use vstd::prelude::*;
use vstd::utf8::encode_utf8;

verus! {

/// The label of a link.
pub enum LinkLabel {
    BugReport,
    Support,
    Status,
    Feedback,
    Community,
    Website,
    Forums,
    News,
    Announcements,
    Custom(String),
}

/// A link that the client shows.
pub struct Link {
    pub label: LinkLabel,
    pub url: String,
}

pub enum LabelView {
    BugReport,
    Support,
    Status,
    Feedback,
    Community,
    Website,
    Forums,
    News,
    Announcements,
    Custom(Seq<char>),
}

pub struct LinkView {
    pub label: LabelView,
    pub url: Seq<char>,
}

impl View for LinkLabel {
    type V = LabelView;

    open spec fn view(&self) -> LabelView {
        match self {
            LinkLabel::BugReport => LabelView::BugReport,
            LinkLabel::Support => LabelView::Support,
            LinkLabel::Status => LabelView::Status,
            LinkLabel::Feedback => LabelView::Feedback,
            LinkLabel::Community => LabelView::Community,
            LinkLabel::Website => LabelView::Website,
            LinkLabel::Forums => LabelView::Forums,
            LinkLabel::News => LabelView::News,
            LinkLabel::Announcements => LabelView::Announcements,
            LinkLabel::Custom(s) => LabelView::Custom(s@),
        }
    }
}

impl View for Link {
    type V = LinkView;

    open spec fn view(&self) -> LinkView {
        LinkView { label: self.label@, url: self.url@ }
    }
}

/// The links that a list stands for.
pub open spec fn link_views(links: Seq<Link>) -> Seq<LinkView> {
    links.map_values(|l: Link| l@)
}

/// A link of the administrator's own.
pub struct CustomLink {
    pub name: String,
    pub url: String,
}

/// The configured links; an empty one is not shown.
pub struct ServerLinks {
    pub enabled: bool,
    pub bug_report: String,
    pub support: String,
    pub status: String,
    pub feedback: String,
    pub community: String,
    pub website: String,
    pub forums: String,
    pub news: String,
    pub announcements: String,
    pub custom: Vec<CustomLink>,
}

/// A link, where it has an address.
pub open spec fn shown(label: LabelView, url: Seq<char>) -> Seq<LinkView> {
    if url.len() == 0 {
        Seq::empty()
    } else {
        seq![LinkView { label, url }]
    }
}

/// A link of the administrator's own, which is always shown.
pub open spec fn custom_link(c: CustomLink) -> LinkView {
    LinkView { label: LabelView::Custom(c.name@), url: c.url@ }
}

/// The links that the client is sent, in their fixed order.
pub open spec fn link_list(c: ServerLinks) -> Seq<LinkView> {
    shown(LabelView::BugReport, c.bug_report@) + shown(LabelView::Support, c.support@) + shown(
        LabelView::Status,
        c.status@,
    ) + shown(LabelView::Feedback, c.feedback@) + shown(LabelView::Community, c.community@)
        + shown(LabelView::Website, c.website@) + shown(LabelView::Forums, c.forums@) + shown(
        LabelView::News,
        c.news@,
    ) + shown(LabelView::Announcements, c.announcements@) + c.custom@.map_values(
        |l: CustomLink| custom_link(l),
    )
}

fn push_shown(links: &mut Vec<Link>, label: LinkLabel, url: &String)
    ensures
        link_views(final(links)@) == link_views(old(links)@) + shown(label@, url@),
{
    let ghost before = link_views(links@);
    if !url.as_str().is_empty() {
        let link = Link { label, url: url.clone() };
        links.push(link);
        assert(link_views(links@) =~= before + seq![link@]);
    } else {
        assert(before + shown(label@, url@) =~= before);
    }
}

/// The links that the client is sent.
pub fn server_links(config: &ServerLinks) -> (r: Vec<Link>)
    ensures
        link_views(r@) == link_list(*config),
{
    let mut links: Vec<Link> = Vec::new();
    assert(link_views(links@) =~= Seq::<LinkView>::empty());
    push_shown(&mut links, LinkLabel::BugReport, &config.bug_report);
    push_shown(&mut links, LinkLabel::Support, &config.support);
    push_shown(&mut links, LinkLabel::Status, &config.status);
    push_shown(&mut links, LinkLabel::Feedback, &config.feedback);
    push_shown(&mut links, LinkLabel::Community, &config.community);
    push_shown(&mut links, LinkLabel::Website, &config.website);
    push_shown(&mut links, LinkLabel::Forums, &config.forums);
    push_shown(&mut links, LinkLabel::News, &config.news);
    push_shown(&mut links, LinkLabel::Announcements, &config.announcements);
    let ghost builtin = link_views(links@);
    let ghost custom = config.custom@.map_values(|l: CustomLink| custom_link(l));
    let mut i: usize = 0;
    assert(builtin + custom.take(0) =~= builtin);
    while i < config.custom.len()
        invariant
            i <= config.custom@.len(),
            custom == config.custom@.map_values(|l: CustomLink| custom_link(l)),
            link_views(links@) == builtin + custom.take(i as int),
        decreases config.custom@.len() - i,
    {
        let ghost before = link_views(links@);
        let link = Link {
            label: LinkLabel::Custom(config.custom[i].name.clone()),
            url: config.custom[i].url.clone(),
        };
        links.push(link);
        assert(link_views(links@) =~= before.push(link@));
        assert(builtin + custom.take(i + 1) =~= before.push(custom[i as int]));
        i = i + 1;
    }
    assert(custom.take(i as int) =~= custom);
    assert(link_views(links@) =~= link_list(*config));
    links
}

/// The resource pack that the administrator configured.
pub struct ResourcePackConfig {
    pub enabled: bool,
    pub url: String,
    pub sha1: String,
    pub force: bool,
    pub prompt_message: String,
}

/// A resource pack that the client is offered.
pub struct PackOffer {
    pub id: u128,
    pub url: String,
    pub hash: String,
    pub forced: bool,
    pub prompt: Option<String>,
}

pub struct OfferView {
    pub id: u128,
    pub url: Seq<char>,
    pub hash: Seq<char>,
    pub forced: bool,
    pub prompt: Option<Seq<char>>,
}

impl View for PackOffer {
    type V = OfferView;

    open spec fn view(&self) -> OfferView {
        OfferView {
            id: self.id,
            url: self.url@,
            hash: self.hash@,
            forced: self.forced,
            prompt: option_text(self.prompt),
        }
    }
}

/// The id of the configured pack, which comes from its address.
pub open spec fn configured_pack_id(url: Seq<char>) -> u128 {
    uuid_v3(NAMESPACE_DNS, encode_utf8(url))
}

/// The id of the configured pack.
pub fn configured_id(url: &String) -> (id: u128)
    ensures
        id == configured_pack_id(url@),
{
    derive_v3(NAMESPACE_DNS, url.as_str().as_bytes())
}

/// The offer of the configured pack.
pub open spec fn configured_offer(c: ResourcePackConfig, id: u128) -> OfferView {
    OfferView {
        id,
        url: c.url@,
        hash: c.sha1@,
        forced: c.force,
        prompt: if c.prompt_message@.len() == 0 {
            None
        } else {
            Some(c.prompt_message@)
        },
    }
}

/// What the server knows of its pack of Bedrock skins.
pub struct SkinPackConfig {
    /// Whether Java clients get the pack.
    pub java_resource_pack: bool,
    /// Whether the pack can be fetched.
    pub endpoint_ready: bool,
    pub port: u16,
    pub public_url: Option<String>,
    /// The current pack's id and hash.
    pub pack: Option<SkinPackInfo>,
}

pub struct SkinPackInfo {
    pub id: u128,
    pub hash: String,
}

/// The offer of the pack of Bedrock skins, where there is one.
pub open spec fn skin_offer(
    c: SkinPackConfig,
    version: JavaMinecraftVersion,
    server_address: Seq<char>,
) -> Option<OfferView> {
    if !c.java_resource_pack || !c.endpoint_ready || version < V_26_1 {
        None
    } else {
        match c.pack {
            None => None,
            Some(pack) => Some(
                OfferView {
                    id: pack.id,
                    url: resource_url_text(
                        server_address,
                        c.port,
                        option_text(c.public_url),
                        pack.id,
                    ),
                    hash: pack.hash@,
                    forced: false,
                    prompt: None,
                },
            ),
        }
    }
}

/// The offer of the pack of Bedrock skins.
pub fn offer_skin_pack(
    config: &SkinPackConfig,
    version: JavaMinecraftVersion,
    server_address: &str,
) -> (r: Option<PackOffer>)
    ensures
        (match r {
            Some(o) => Some(o@),
            None => None,
        }) == skin_offer(*config, version, server_address@),
{
    if !config.java_resource_pack || !config.endpoint_ready || version < V_26_1 {
        return None;
    }
    match &config.pack {
        None => None,
        Some(pack) => {
            let url = match &config.public_url {
                Some(public) => resource_url(
                    server_address,
                    config.port,
                    Some(public.as_str()),
                    pack.id,
                ),
                None => resource_url(server_address, config.port, None, pack.id),
            };
            Some(PackOffer { id: pack.id, url, hash: pack.hash.clone(), forced: false, prompt: None })
        },
    }
}

/// How the configuration goes on once no pack is outstanding.
#[derive(Clone, Copy, Debug, PartialEq, Eq, Structural)]
pub enum Continuation {
    /// Ask which packs the client knows.
    SendKnownPacks,
    /// Go on as if it had answered.
    HandleKnownPacks,
}

/// How the configuration goes on for a version.
pub fn continue_configuration_after_resource_packs(version: JavaMinecraftVersion) -> (r: Continuation)
    ensures
        r == (if version >= V_1_20_5 {
            Continuation::SendKnownPacks
        } else {
            Continuation::HandleKnownPacks
        }),
{
    if version >= V_1_20_5 {
        Continuation::SendKnownPacks
    } else {
        Continuation::HandleKnownPacks
    }
}

/// What happens after a login was acknowledged: first the branding, then the links, then
/// the offered packs, and then the configuration goes on unless a pack is outstanding.
pub struct LoginPlan {
    pub links: Option<Vec<Link>>,
    pub offers: Vec<PackOffer>,
    pub continuation: Option<Continuation>,
}

pub struct PlanView {
    pub links: Option<Seq<LinkView>>,
    pub offers: Seq<OfferView>,
    pub continuation: Option<Continuation>,
}

/// The offers that a list stands for.
pub open spec fn offer_views(offers: Seq<PackOffer>) -> Seq<OfferView> {
    offers.map_values(|o: PackOffer| o@)
}

impl View for LoginPlan {
    type V = PlanView;

    open spec fn view(&self) -> PlanView {
        PlanView {
            links: match self.links {
                Some(l) => Some(link_views(l@)),
                None => None,
            },
            offers: offer_views(self.offers@),
            continuation: self.continuation,
        }
    }
}

/// One offer or none, as a sequence.
pub open spec fn offer_seq(o: Option<OfferView>) -> Seq<OfferView> {
    match o {
        Some(o) => seq![o],
        None => Seq::empty(),
    }
}

/// The plan for a version that has the configuration state, where the configured pack
/// has a given id.
pub open spec fn login_plan(
    version: JavaMinecraftVersion,
    links: ServerLinks,
    pack: ResourcePackConfig,
    pack_id: u128,
    skins: SkinPackConfig,
    server_address: Seq<char>,
) -> PlanView {
    let offers = (if pack.enabled {
        seq![configured_offer(pack, pack_id)]
    } else {
        Seq::empty()
    }) + offer_seq(skin_offer(skins, version, server_address));
    PlanView {
        links: if links.enabled && version >= V_1_21 {
            Some(link_list(links))
        } else {
            None
        },
        offers,
        continuation: if offers.len() > 0 {
            None
        } else if version >= V_1_20_5 {
            Some(Continuation::SendKnownPacks)
        } else {
            Some(Continuation::HandleKnownPacks)
        },
    }
}

/// Plans the configuration of a client, given the configured pack's id. A version
/// without the configuration state is refused with the text in `Err`.
pub fn plan_login(
    version: JavaMinecraftVersion,
    links: &ServerLinks,
    pack: &ResourcePackConfig,
    pack_id: u128,
    skins: &SkinPackConfig,
    server_address: &str,
) -> (r: Result<LoginPlan, &'static str>)
    ensures
        r is Ok == (version >= V_1_20_2),
        r matches Ok(plan) ==> plan@ == login_plan(
            version,
            *links,
            *pack,
            pack_id,
            *skins,
            server_address@,
        ),
        r matches Err(e) ==> e@ == "Configuration state not supported for this version"@,
{
    if !supports_configuration_state(version) {
        return Err("Configuration state not supported for this version");
    }
    let sent_links = if links.enabled && version >= V_1_21 {
        Some(server_links(links))
    } else {
        None
    };
    let mut offers: Vec<PackOffer> = Vec::new();
    assert(offer_views(offers@) =~= Seq::<OfferView>::empty());
    if pack.enabled {
        let offer = PackOffer {
            id: pack_id,
            url: pack.url.clone(),
            hash: pack.sha1.clone(),
            forced: pack.force,
            prompt: if pack.prompt_message.as_str().is_empty() {
                None
            } else {
                Some(pack.prompt_message.clone())
            },
        };
        offers.push(offer);
        assert(offer_views(offers@) =~= seq![configured_offer(*pack, pack_id)]);
    }
    let ghost first = offer_views(offers@);
    if let Some(offer) = offer_skin_pack(skins, version, server_address) {
        offers.push(offer);
        assert(offer_views(offers@) =~= first + seq![offer@]);
    } else {
        assert(first + Seq::<OfferView>::empty() =~= first);
    }
    let continuation = if offers.len() == 0 {
        Some(continue_configuration_after_resource_packs(version))
    } else {
        None
    };
    Ok(LoginPlan { links: sent_links, offers, continuation })
}

/// Plans what a client is told when it has acknowledged its login.
pub fn handle_login_acknowledged(
    version: JavaMinecraftVersion,
    links: &ServerLinks,
    pack: &ResourcePackConfig,
    skins: &SkinPackConfig,
    server_address: &str,
) -> (r: Result<LoginPlan, &'static str>)
    ensures
        r is Ok == (version >= V_1_20_2),
        r matches Ok(plan) ==> plan@ == login_plan(
            version,
            *links,
            *pack,
            configured_pack_id(pack.url@),
            *skins,
            server_address@,
        ),
        r matches Err(e) ==> e@ == "Configuration state not supported for this version"@,
{
    plan_login(version, links, pack, configured_id(&pack.url), skins, server_address)
}

/// The configuration goes on at once exactly where no pack was offered.
pub proof fn law_outstanding_packs_hold_the_configuration(
    version: JavaMinecraftVersion,
    links: ServerLinks,
    pack: ResourcePackConfig,
    pack_id: u128,
    skins: SkinPackConfig,
    server_address: Seq<char>,
)
    ensures
        ({
            let plan = login_plan(version, links, pack, pack_id, skins, server_address);
            (plan.continuation is None) <==> plan.offers.len() > 0
        }),
        pack.enabled ==> login_plan(
            version,
            links,
            pack,
            pack_id,
            skins,
            server_address,
        ).continuation is None,
{
}

/// Links with another behind them, where it has an address.
spec fn with_shown(before: Seq<LinkView>, label: LabelView, url: Seq<char>) -> Seq<LinkView> {
    before + shown(label, url)
}

/// Whether links all have an address and a label that is not of the administrator's own.
spec fn all_plain(links: Seq<LinkView>) -> bool {
    forall|i: int|
        0 <= i < links.len() ==> (#[trigger] links[i]).url.len() > 0 && !(links[i].label is Custom)
}

proof fn lemma_shown_there(before: Seq<LinkView>, label: LabelView, url: Seq<char>)
    ensures
        ({
            let after = with_shown(before, label, url);
            &&& before.len() <= after.len() <= before.len() + 1
            &&& before == after.take(before.len() as int)
            &&& url.len() > 0 ==> after.contains(LinkView { label, url })
            &&& all_plain(before) && !(label is Custom) ==> all_plain(after)
        }),
{
    let after = with_shown(before, label, url);
    assert(after.take(before.len() as int) =~= before);
    if url.len() > 0 {
        assert(after[before.len() as int] == (LinkView { label, url }));
    }
}

proof fn lemma_links_go_on(
    before: Seq<LinkView>,
    after: Seq<LinkView>,
    own: Seq<LinkView>,
    link: LinkView,
)
    requires
        before.len() <= after.len(),
        before == after.take(before.len() as int),
        before.contains(link),
    ensures
        (after + own).contains(link),
{
    let i = choose|i: int| 0 <= i < before.len() && before[i] == link;
    assert(after.take(before.len() as int)[i] == after[i]);
    assert((after + own)[i] == link);
}

proof fn lemma_take_twice(a: Seq<LinkView>, b: Seq<LinkView>, c: Seq<LinkView>)
    requires
        a.len() <= b.len() <= c.len(),
        a == b.take(a.len() as int),
        b == c.take(b.len() as int),
    ensures
        a == c.take(a.len() as int),
{
    assert(a =~= c.take(a.len() as int));
}

/// Each configured link is sent under its own label just where it has an address, and every link
/// of the administrator's own is; nothing else is sent.
pub proof fn law_links_are_sent_under_their_labels(c: ServerLinks, k: int)
    ensures
        ({
            let all = link_list(c);
            let n = all.len() - c.custom@.len();
            &&& c.bug_report@.len() > 0 ==> all.contains(
                LinkView { label: LabelView::BugReport, url: c.bug_report@ },
            )
            &&& c.support@.len() > 0 ==> all.contains(
                LinkView { label: LabelView::Support, url: c.support@ },
            )
            &&& c.status@.len() > 0 ==> all.contains(
                LinkView { label: LabelView::Status, url: c.status@ },
            )
            &&& c.feedback@.len() > 0 ==> all.contains(
                LinkView { label: LabelView::Feedback, url: c.feedback@ },
            )
            &&& c.community@.len() > 0 ==> all.contains(
                LinkView { label: LabelView::Community, url: c.community@ },
            )
            &&& c.website@.len() > 0 ==> all.contains(
                LinkView { label: LabelView::Website, url: c.website@ },
            )
            &&& c.forums@.len() > 0 ==> all.contains(
                LinkView { label: LabelView::Forums, url: c.forums@ },
            )
            &&& c.news@.len() > 0 ==> all.contains(
                LinkView { label: LabelView::News, url: c.news@ },
            )
            &&& c.announcements@.len() > 0 ==> all.contains(
                LinkView { label: LabelView::Announcements, url: c.announcements@ },
            )
            &&& 0 <= n <= 9
            &&& 0 <= k < c.custom@.len() ==> all[n + k] == (LinkView {
                label: LabelView::Custom(c.custom@[k].name@),
                url: c.custom@[k].url@,
            })
            &&& 0 <= k < n ==> all[k].url.len() > 0 && !(all[k].label is Custom)
        }),
{
    let own = c.custom@.map_values(|l: CustomLink| custom_link(l));
    let p0 = Seq::<LinkView>::empty();
    let p1 = with_shown(p0, LabelView::BugReport, c.bug_report@);
    let p2 = with_shown(p1, LabelView::Support, c.support@);
    let p3 = with_shown(p2, LabelView::Status, c.status@);
    let p4 = with_shown(p3, LabelView::Feedback, c.feedback@);
    let p5 = with_shown(p4, LabelView::Community, c.community@);
    let p6 = with_shown(p5, LabelView::Website, c.website@);
    let p7 = with_shown(p6, LabelView::Forums, c.forums@);
    let p8 = with_shown(p7, LabelView::News, c.news@);
    let p9 = with_shown(p8, LabelView::Announcements, c.announcements@);
    assert(p1 =~= shown(LabelView::BugReport, c.bug_report@));
    let all = link_list(c);
    assert(all == p9 + own);
    lemma_shown_there(p0, LabelView::BugReport, c.bug_report@);
    lemma_shown_there(p1, LabelView::Support, c.support@);
    lemma_shown_there(p2, LabelView::Status, c.status@);
    lemma_shown_there(p3, LabelView::Feedback, c.feedback@);
    lemma_shown_there(p4, LabelView::Community, c.community@);
    lemma_shown_there(p5, LabelView::Website, c.website@);
    lemma_shown_there(p6, LabelView::Forums, c.forums@);
    lemma_shown_there(p7, LabelView::News, c.news@);
    lemma_shown_there(p8, LabelView::Announcements, c.announcements@);
    assert(p9 == p9.take(p9.len() as int));
    lemma_take_twice(p7, p8, p9);
    lemma_take_twice(p6, p7, p9);
    lemma_take_twice(p5, p6, p9);
    lemma_take_twice(p4, p5, p9);
    lemma_take_twice(p3, p4, p9);
    lemma_take_twice(p2, p3, p9);
    lemma_take_twice(p1, p2, p9);
    if c.bug_report@.len() > 0 {
        let link = LinkView { label: LabelView::BugReport, url: c.bug_report@ };
        lemma_links_go_on(p1, p9, own, link);
    }
    if c.support@.len() > 0 {
        let link = LinkView { label: LabelView::Support, url: c.support@ };
        lemma_links_go_on(p2, p9, own, link);
    }
    if c.status@.len() > 0 {
        let link = LinkView { label: LabelView::Status, url: c.status@ };
        lemma_links_go_on(p3, p9, own, link);
    }
    if c.feedback@.len() > 0 {
        let link = LinkView { label: LabelView::Feedback, url: c.feedback@ };
        lemma_links_go_on(p4, p9, own, link);
    }
    if c.community@.len() > 0 {
        let link = LinkView { label: LabelView::Community, url: c.community@ };
        lemma_links_go_on(p5, p9, own, link);
    }
    if c.website@.len() > 0 {
        let link = LinkView { label: LabelView::Website, url: c.website@ };
        lemma_links_go_on(p6, p9, own, link);
    }
    if c.forums@.len() > 0 {
        let link = LinkView { label: LabelView::Forums, url: c.forums@ };
        lemma_links_go_on(p7, p9, own, link);
    }
    if c.news@.len() > 0 {
        let link = LinkView { label: LabelView::News, url: c.news@ };
        lemma_links_go_on(p8, p9, own, link);
    }
    if c.announcements@.len() > 0 {
        let link = LinkView { label: LabelView::Announcements, url: c.announcements@ };
        lemma_links_go_on(p9, p9, own, link);
    }
    if 0 <= k < c.custom@.len() {
        assert(all[p9.len() + k] == own[k]);
    }
    if 0 <= k < p9.len() {
        assert(all[k] == p9[k]);
    }
}

/// The configured pack is offered just where it is enabled, as it is configured and before any
/// other; the pack of Bedrock skins is offered just where it is meant for Java clients, can be
/// fetched, is there, and the client knows how to use it. Nobody is forced to take the latter.
pub proof fn law_packs_are_offered_where_they_are_wanted(
    version: JavaMinecraftVersion,
    links: ServerLinks,
    pack: ResourcePackConfig,
    pack_id: u128,
    skins: SkinPackConfig,
    server_address: Seq<char>,
)
    ensures
        ({
            let plan = login_plan(version, links, pack, pack_id, skins, server_address);
            let first = if pack.enabled {
                1nat
            } else {
                0
            };
            let wanted = skins.java_resource_pack && skins.endpoint_ready && version >= 26_001_000
                && skins.pack is Some;
            &&& plan.offers.len() == first + (if wanted {
                1nat
            } else {
                0
            })
            &&& pack.enabled ==> {
                let offer = plan.offers[0];
                &&& offer.id == pack_id
                &&& offer.url == pack.url@
                &&& offer.hash == pack.sha1@
                &&& offer.forced == pack.force
                &&& offer.prompt is None <==> pack.prompt_message@.len() == 0
                &&& offer.prompt matches Some(text) ==> text == pack.prompt_message@
            }
            &&& wanted ==> {
                let offer = plan.offers.last();
                &&& offer.id == (skins.pack->0).id
                &&& offer.hash == (skins.pack->0).hash@
                &&& offer.url == resource_url_text(
                    server_address,
                    skins.port,
                    option_text(skins.public_url),
                    offer.id,
                )
                &&& !offer.forced
                &&& offer.prompt is None
            }
            &&& plan.links is Some <==> links.enabled && version >= 1_021_000
            &&& plan.links matches Some(list) ==> list == link_list(links)
            &&& plan.continuation is Some <==> !pack.enabled && !wanted
            &&& plan.continuation matches Some(next) ==> (next == Continuation::SendKnownPacks
                <==> version >= 1_020_005)
        }),
{
}

/// The id of the configured pack is the version-3 id of its address in the namespace of domain
/// names.
pub proof fn law_pack_ids_come_from_the_address(url: Seq<char>)
    ensures
        configured_pack_id(url) == uuid_v3(
            0x6ba7b810_9dad_11d1_80b4_00c04fd430c8u128,
            encode_utf8(url),
        ),
{
}

} // verus!

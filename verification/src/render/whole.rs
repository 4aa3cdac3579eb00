//! What holds of the pages as a whole: no mark of a template is left, and no address of another host
//! comes in with the templates and styles. A proof has to name the text that it reads, so templates
//! and styles stand here once more.

use vstd::prelude::*;
use vstd::string::*;

use crate::couple::CoupleReport;
use crate::curios::Curios;
use crate::render;
use crate::render::charts;
use crate::render::curios;
use crate::render::figures::Figures;
use crate::render::filling;
use crate::render::markup;
use crate::render::parts;
use crate::render::slides;
use crate::render::template;
use crate::text;

verus! {

/// The shared styles hold no two opening braces and no two slashes in a row.
#[verifier::rlimit(30)]
#[verifier::spinoff_prover]
proof fn base_styles_are_calm()
    ensures
        filling::pairless(template::BASE_CSS@, '{'),
        filling::pairless(template::BASE_CSS@, '/'),
{
    reveal_strlit(r#"
  :root { --me:#5b8def; --them:#e85d75; --me-bg:#e3edff; --them-bg:#fde2e8; --bg:#fff7f9; --card:#fff; --ink:#3a2b2e; --mut:#9a8a8d; }
  * { box-sizing:border-box; }
  body { margin:0; font-family:-apple-system,"PingFang SC","Microsoft YaHei",sans-serif; color:var(--ink); }
  section { background:var(--card); border-radius:16px; padding:18px 20px; margin:16px 0; box-shadow:0 4px 16px rgba(0,0,0,.06); }
  section h2 { margin:0 0 12px; font-size:17px; }
  .bar { display:flex; height:26px; border-radius:13px; overflow:hidden; box-shadow:inset 0 0 0 1px #eee; }
  .bar .me { background:var(--me); } .bar .them { background:var(--them); }
  .bar-legend { display:flex; justify-content:space-between; font-size:13px; color:var(--mut); margin-top:6px; }
  .reply-row { display:flex; align-items:center; gap:14px; margin:10px 0; }
  .reply-label { width:96px; font-size:13px; color:var(--mut); }
  .reply-bars { flex:1; display:flex; flex-direction:column; gap:6px; }
  .rbi { display:flex; align-items:center; gap:8px; }
  .who { width:18px; font-size:12px; font-weight:700; }
  .who.me { color:var(--me); } .who.them { color:var(--them); }
  .rb { position:relative; flex:1; height:14px; background:#f0eef0; border-radius:7px; overflow:hidden; }
  .rb span { display:block; height:100%; }
  .rb .me { background:var(--me); } .rb .them { background:var(--them); }
  .rbi i { width:48px; text-align:right; font-style:normal; font-size:12px; color:var(--ink); }
  .cloud { line-height:2.2; text-align:center; word-break:break-word; }
  .cloud i { font-style:normal; font-size:11px; color:var(--mut); vertical-align:super; }
  .kw { width:100%; border-collapse:collapse; font-size:14px; }
  .kw th,.kw td { padding:6px 10px; text-align:left; border-bottom:1px solid #f3eef0; }
  .kw th { color:var(--mut); font-weight:600; }
  .kw .me { color:var(--me); } .kw .them { color:var(--them); }
  .dig-row { display:grid; grid-template-columns:1fr 1fr; gap:20px; }
  .dig-cell h4 { margin:0 0 10px; font-size:14px; }
  .latpair { display:flex; flex-direction:column; gap:8px; }
  .latpair>div { display:flex; align-items:center; gap:8px; }
  .lat { display:inline-flex; align-items:baseline; gap:8px; font-size:14px; }
  .lat b { font-size:15px; } .lat i { font-style:normal; color:var(--mut); font-size:12px; }
  .lat u { text-decoration:none; font-size:11px; color:var(--mut); }
  .lbl { font-size:12px; font-weight:600; padding:2px 8px; border-radius:6px; }
  .lbl.me { color:var(--me); background:var(--me-bg); } .lbl.them { color:var(--them); background:var(--them-bg); }
  .types { margin-top:16px; display:grid; grid-template-columns:1fr 1fr; gap:16px; }
  .types>div { display:flex; flex-direction:column; gap:6px; }
  .tchips { display:flex; flex-wrap:wrap; gap:6px; }
  .tc { padding:4px 10px; border-radius:8px; background:#f3eff2; font-size:13px; }
  .tc.me { background:var(--me-bg); color:var(--me); } .tc.them { background:var(--them-bg); color:var(--them); }
  .tc i { font-style:normal; font-size:11px; opacity:.6; margin-left:4px; }
  .trend { width:100%; height:auto; display:block; }
  .trend .dot { fill:transparent; }
  .trend .pk { fill:var(--me); stroke:#fff; stroke-width:1.5; }
  .trend .pk-l { font-size:11px; fill:var(--ink); text-anchor:middle; font-weight:600; }
  .trend .ax { font-size:11px; fill:var(--mut); }
  .tag { font-size:12px; font-weight:600; padding:3px 10px; border-radius:999px; margin-left:8px; vertical-align:middle; }
  .tag-up { background:var(--them-bg); color:var(--them); }
  .tag-down { background:var(--me-bg); color:var(--me); }
  .tag-flat, .tag-unk { background:#f0eef0; color:var(--mut); }
  .score { display:flex; align-items:center; gap:18px; }
  .score-num { font-size:48px; font-weight:800; color:var(--them); line-height:1; }
  .score-meta b { font-size:16px; }
  .score-bars { margin-top:6px; display:flex; flex-direction:column; gap:4px; min-width:280px; }
  .sb { display:flex; align-items:center; gap:8px; font-size:12px; }
  .sb>span { width:64px; color:var(--mut); }
  .sbb { flex:1; height:8px; background:#f0eef0; border-radius:4px; overflow:hidden; }
  .sbb i { display:block; height:100%; background:var(--them); }
  .sb u { text-decoration:none; color:var(--mut); width:44px; text-align:right; }
  .milestones { margin:14px 0; }
  .milestones h4, .bio h4 { margin:0 0 8px; font-size:14px; }
  .mi { display:flex; gap:10px; padding:5px 0; font-size:13px; border-bottom:1px solid #f5f0f2; }
  .ml { width:150px; color:var(--mut); }
  .md { flex:1; }
  .bio { margin:14px 0; }
  .lg { float:right; font-size:12px; font-weight:400; color:var(--mut); }
  .lg i { display:inline-block; width:14px; height:3px; vertical-align:middle; margin:0 4px 0 8px; border-radius:2px; }
  .lg i.me { background:var(--me); } .lg i.them { background:var(--them); }
  .cgrid { display:grid; grid-template-columns:repeat(3,1fr); gap:10px; margin:14px 0; }
  .ccard { background:#faf7f9; border-radius:10px; padding:10px 12px; }
  .ct { font-size:12px; color:var(--mut); margin-bottom:4px; }
  .cb { font-size:14px; font-weight:600; }
  .sign { display:grid; grid-template-columns:1fr 1fr; gap:16px; margin:10px 0; }
  .sign .lbl { display:inline-block; margin-bottom:6px; }
  .emo { background:#faf7f9; border-radius:10px; padding:12px 14px; font-size:13px; margin-top:10px; line-height:1.6; }
  .lg-i { border:none; background:none; cursor:pointer; font-size:12px; font-weight:600; margin-left:10px; }
  .lg-i.me { color:var(--me); } .lg-i.them { color:var(--them); }
  .lg-i.off { opacity:.3; text-decoration:line-through; }
  .bio-me.hide, .bio-them.hide { opacity:0; transition:opacity .2s; }
  body.dark { --card:#241b1d; --ink:#efe7e9; --mut:#9b8c8f; }
  body.dark .ccard, body.dark .emo { background:#2a2022; }
  body.dark .hm-c.lv0 { background:#33292b; }
  .hm { display:flex; gap:6px; overflow-x:auto; padding:4px 0; }
  .hm-wdc { display:grid; grid-template-rows:repeat(7,11px); gap:2px; padding-top:18px; }
  .hm-wd { font-size:9px; color:var(--mut); line-height:11px; }
  .hm-months { display:grid; grid-auto-flow:column; grid-auto-columns:11px; gap:2px; height:14px; margin-bottom:3px; }
  .hm-m { font-size:9px; color:var(--mut); white-space:nowrap; }
  .hm-grid { display:grid; grid-template-rows:repeat(7,11px); grid-auto-flow:column; grid-auto-columns:11px; gap:2px; }
  .hm-c { width:11px; height:11px; border-radius:2px; display:block; }
  .hm-c.lv0 { background:#eee; } .hm-c.lv1 { background:#fcd5dd; } .hm-c.lv2 { background:#f59caf; }
  .hm-c.lv3 { background:#e85d75; } .hm-c.lv4 { background:#c0354f; }
  .hm-leg { font-size:11px; color:var(--mut); margin-top:10px; display:flex; align-items:center; gap:3px; }
  .hm-leg .hm-c { width:11px; height:11px; margin:0 1px; }
  .hm-info { margin-top:10px; font-size:13px; color:var(--mut); background:#faf7f9; border-radius:8px; padding:8px 12px; }
  body.dark .hm-info { background:#2a2022; }
  .tr-toggle { float:right; font-size:13px; font-weight:400; }
  .tr-btn { border:1px solid #e6dfe2; background:var(--card); color:var(--mut); padding:3px 12px; cursor:pointer; border-radius:999px; font-size:12px; margin-left:4px; }
  .tr-btn.active { background:var(--me); color:#fff; border-color:var(--me); }
  .tr-cap { font-size:13px; color:var(--mut); margin-bottom:4px; }
  .topwords { display:grid; grid-template-columns:1fr 1fr; gap:20px; }
  .topwords h3 { margin:0 0 10px; font-size:15px; }
  .chips { display:flex; flex-wrap:wrap; gap:8px; }
  .chip { padding:5px 11px; border-radius:999px; font-size:13px; background:#f1eef2; }
  .chip i { font-style:normal; font-size:11px; opacity:.6; margin-left:4px; }
  .chip.me { background:var(--me-bg); } .chip.them { background:var(--them-bg); }
  .muted { color:var(--mut); font-size:14px; }
"#);
    let t = template::BASE_CSS@;
    assert forall|i: int| 0 <= i < 1000 implies !(#[trigger] t[i] == '{' && t[i + 1] == '{') && !(t[i] == '/' && t[i + 1]
        == '/') by {}
    assert forall|i: int| 1000 <= i < 2000 implies !(#[trigger] t[i] == '{' && t[i + 1] == '{') && !(t[i] == '/' && t[i + 1]
        == '/') by {}
    assert forall|i: int| 2000 <= i < 3000 implies !(#[trigger] t[i] == '{' && t[i + 1] == '{') && !(t[i] == '/' && t[i + 1]
        == '/') by {}
    assert forall|i: int| 3000 <= i < 4000 implies !(#[trigger] t[i] == '{' && t[i + 1] == '{') && !(t[i] == '/' && t[i + 1]
        == '/') by {}
    assert forall|i: int| 4000 <= i < 5000 implies !(#[trigger] t[i] == '{' && t[i + 1] == '{') && !(t[i] == '/' && t[i + 1]
        == '/') by {}
    assert forall|i: int| 5000 <= i < 6000 implies !(#[trigger] t[i] == '{' && t[i + 1] == '{') && !(t[i] == '/' && t[i + 1]
        == '/') by {}
    assert forall|i: int| 6000 <= i < 7000 implies !(#[trigger] t[i] == '{' && t[i + 1] == '{') && !(t[i] == '/' && t[i + 1]
        == '/') by {}
    assert forall|i: int| 7000 <= i < 7753 implies !(#[trigger] t[i] == '{' && t[i + 1] == '{') && !(t[i] == '/' && t[i + 1]
        == '/') by {}
}

/// Nor do the styles of the single page.
#[verifier::rlimit(30)]
#[verifier::spinoff_prover]
proof fn page_styles_are_calm()
    ensures
        filling::pairless(template::DASHBOARD_CSS@, '{'),
        filling::pairless(template::DASHBOARD_CSS@, '/'),
{
    reveal_strlit(r#"
  body { background:linear-gradient(180deg,#fff0f3,#f4f7ff); padding:32px 16px 64px; }
  body.dark { background:linear-gradient(180deg,#1f1719,#161a22); }
  .wrap { max-width:1040px; margin:0 auto; }
  header { text-align:center; margin-bottom:8px; position:relative; }
  header h1 { margin:0 0 6px; font-size:26px; }
  header .meta { color:var(--mut); font-size:14px; }
  #theme { position:absolute; top:0; right:0; border:none; background:var(--card); border-radius:999px; width:40px; height:40px; font-size:18px; cursor:pointer; box-shadow:0 2px 10px rgba(0,0,0,.08); }
  #tip { position:fixed; pointer-events:none; background:#3a2b2e; color:#fff; padding:4px 9px; border-radius:6px; font-size:12px; opacity:0; transition:opacity .12s; z-index:99; white-space:nowrap; }
  .pills { display:flex; gap:10px; justify-content:center; margin:14px 0 24px; }
  .pill { background:var(--card); border-radius:999px; padding:8px 16px; font-weight:600; box-shadow:0 2px 10px rgba(0,0,0,.06); font-size:14px; }
  .cards { display:grid; grid-template-columns:repeat(3,1fr); gap:12px; margin:20px 0; }
  .card { background:var(--card); border-radius:16px; padding:16px 14px; text-align:center; box-shadow:0 4px 16px rgba(0,0,0,.06); }
  .card-val { font-size:22px; font-weight:700; }
  .card-label { font-size:13px; color:var(--mut); margin-top:4px; }
  .card-sub { font-size:12px; color:var(--mut); margin-top:2px; }
  footer { text-align:center; color:var(--mut); font-size:12px; margin-top:24px; }
  @media(max-width:560px){ .cards,.cgrid{grid-template-columns:repeat(2,1fr)} .topwords,.dig-row,.types,.sign{grid-template-columns:1fr} }
"#);
    let t = template::DASHBOARD_CSS@;
    assert forall|i: int| 0 <= i < 1000 implies !(#[trigger] t[i] == '{' && t[i + 1] == '{') && !(t[i] == '/' && t[i + 1]
        == '/') by {}
    assert forall|i: int| 1000 <= i < 1628 implies !(#[trigger] t[i] == '{' && t[i + 1] == '{') && !(t[i] == '/' && t[i + 1]
        == '/') by {}
}

/// Nor do those of the slides.
#[verifier::rlimit(30)]
#[verifier::spinoff_prover]
proof fn deck_styles_are_calm()
    ensures
        filling::pairless(template::DECK_CSS@, '{'),
        filling::pairless(template::DECK_CSS@, '/'),
{
    reveal_strlit(r#"
  html,body { height:100%; }
  body { background:linear-gradient(135deg,#fff0f3 0%,#f4f7ff 100%); overflow:hidden; }
  body.dark { background:linear-gradient(135deg,#1f1719,#161a22); }
  .deck { height:100vh; width:100vw; position:relative; overflow:hidden; }
  .track { display:flex; height:100%; transition:transform .55s cubic-bezier(.22,.61,.36,1); will-change:transform; }
  .slide { min-width:100vw; height:100vh; display:flex; flex-direction:column; justify-content:center; align-items:center; padding:7vh 8vw; overflow:auto; text-align:center; }
  .slide h2 { font-size:30px; margin:0 0 26px; }
  .slide section { width:100%; max-width:900px; margin:0 auto; text-align:left; }
  .slide .emoji { font-size:72px; }
  .s-cover h1 { font-size:44px; margin:10px 0 6px; }
  .s-cover .sub { color:var(--mut); font-size:18px; margin:0 0 14px; }
  .s-cover .big { font-size:50px; font-weight:800; color:var(--them); margin:0; }
  .s-cover .hint { color:var(--mut); font-size:13px; margin-top:34px; }
  .s-score { font-size:128px; font-weight:800; color:var(--them); line-height:1; }
  .s-score span { font-size:32px; color:var(--mut); }
  .s-scorelabel { font-size:26px; margin:6px 0 24px; }
  .s-stats { display:flex; gap:24px; flex-wrap:wrap; justify-content:center; }
  .s-stat { background:var(--card); border-radius:18px; padding:22px 30px; text-align:center; box-shadow:0 4px 16px rgba(0,0,0,.06); min-width:150px; }
  .s-stat b { display:block; font-size:40px; color:var(--me); line-height:1.1; }
  .s-stat span { color:var(--mut); font-size:14px; }
  .s-note { color:var(--mut); font-size:16px; margin-top:22px; }
  .slide .bar { max-width:560px; width:100%; }
  .nav { position:fixed; top:50%; transform:translateY(-50%); width:100%; display:flex; justify-content:space-between; padding:0 18px; pointer-events:none; z-index:20; }
  .nav button { pointer-events:auto; border:none; background:var(--card); width:50px; height:50px; border-radius:50%; font-size:26px; cursor:pointer; box-shadow:0 2px 12px rgba(0,0,0,.12); color:var(--ink); }
  .dots { position:fixed; bottom:18px; left:50%; transform:translateX(-50%); display:flex; gap:7px; z-index:20; }
  .dots i { width:8px; height:8px; border-radius:50%; background:#d8c8cc; cursor:pointer; transition:all .3s; }
  .dots i.on { background:var(--them); width:24px; border-radius:4px; }
  .counter { position:fixed; top:20px; right:24px; color:var(--mut); font-size:14px; z-index:20; }
  .progress { position:fixed; top:0; left:0; height:3px; background:var(--them); z-index:21; transition:width .4s; }
  #theme { position:fixed; top:16px; left:22px; border:none; background:var(--card); border-radius:999px; width:40px; height:40px; font-size:18px; cursor:pointer; box-shadow:0 2px 10px rgba(0,0,0,.1); z-index:20; }
"#);
    let t = template::DECK_CSS@;
    assert forall|i: int| 0 <= i < 1000 implies !(#[trigger] t[i] == '{' && t[i + 1] == '{') && !(t[i] == '/' && t[i + 1]
        == '/') by {}
    assert forall|i: int| 1000 <= i < 2000 implies !(#[trigger] t[i] == '{' && t[i + 1] == '{') && !(t[i] == '/' && t[i + 1]
        == '/') by {}
    assert forall|i: int| 2000 <= i < 2776 implies !(#[trigger] t[i] == '{' && t[i + 1] == '{') && !(t[i] == '/' && t[i + 1]
        == '/') by {}
}

/// What is replaced in the page are marks.
proof fn page_marks_are_marks()
    ensures
        filling::is_mark("{{CSS}}"@) && filling::pairless("{{CSS}}"@, '/'),
        filling::is_mark("{{TITLE}}"@) && filling::pairless("{{TITLE}}"@, '/'),
        filling::is_mark("{{NAME}}"@) && filling::pairless("{{NAME}}"@, '/'),
        filling::is_mark("{{SPAN}}"@) && filling::pairless("{{SPAN}}"@, '/'),
        filling::is_mark("{{NTH}}"@) && filling::pairless("{{NTH}}"@, '/'),
        filling::is_mark("{{TOTAL}}"@) && filling::pairless("{{TOTAL}}"@, '/'),
        filling::is_mark("{{CARDS}}"@) && filling::pairless("{{CARDS}}"@, '/'),
        filling::is_mark("{{RATIO}}"@) && filling::pairless("{{RATIO}}"@, '/'),
        filling::is_mark("{{REPLY}}"@) && filling::pairless("{{REPLY}}"@, '/'),
        filling::is_mark("{{CLOUD}}"@) && filling::pairless("{{CLOUD}}"@, '/'),
        filling::is_mark("{{KEYWORDS}}"@) && filling::pairless("{{KEYWORDS}}"@, '/'),
        filling::is_mark("{{TOPWORDS}}"@) && filling::pairless("{{TOPWORDS}}"@, '/'),
        filling::is_mark("{{DIG}}"@) && filling::pairless("{{DIG}}"@, '/'),
        filling::is_mark("{{TREND}}"@) && filling::pairless("{{TREND}}"@, '/'),
        filling::is_mark("{{CURIOS}}"@) && filling::pairless("{{CURIOS}}"@, '/'),
{
    reveal_strlit("{{CSS}}");
    reveal_strlit("{{TITLE}}");
    reveal_strlit("{{NAME}}");
    reveal_strlit("{{SPAN}}");
    reveal_strlit("{{NTH}}");
    reveal_strlit("{{TOTAL}}");
    reveal_strlit("{{CARDS}}");
    reveal_strlit("{{RATIO}}");
    reveal_strlit("{{REPLY}}");
    reveal_strlit("{{CLOUD}}");
    reveal_strlit("{{KEYWORDS}}");
    reveal_strlit("{{TOPWORDS}}");
    reveal_strlit("{{DIG}}");
    reveal_strlit("{{TREND}}");
    reveal_strlit("{{CURIOS}}");
}

/// What is replaced in the slides are marks.
proof fn deck_marks_are_marks()
    ensures
        filling::is_mark("{{CSS}}"@) && filling::pairless("{{CSS}}"@, '/'),
        filling::is_mark("{{TITLE}}"@) && filling::pairless("{{TITLE}}"@, '/'),
        filling::is_mark("{{SLIDES}}"@) && filling::pairless("{{SLIDES}}"@, '/'),
        filling::is_mark("{{DOTS}}"@) && filling::pairless("{{DOTS}}"@, '/'),
{
    reveal_strlit("{{CSS}}");
    reveal_strlit("{{TITLE}}");
    reveal_strlit("{{SLIDES}}");
    reveal_strlit("{{DOTS}}");
}

/// All are marks, and none holds two slashes in a row.
spec fn all_marks(slots: Seq<Seq<char>>) -> bool {
    forall|i: int|
        0 <= i < slots.len() ==> filling::is_mark(#[trigger] slots[i]) && filling::pairless(slots[i], '/')
}

/// Frames with marks between them are a weave in which all these marks are still to be filled.
proof fn marks_are_left(frames: Seq<Seq<char>>, slots: Seq<Seq<char>>)
    requires
        frames.len() == slots.len() + 1,
        forall|i: int| 0 <= i < frames.len() ==> filling::is_frame(#[trigger] frames[i]),
        all_marks(slots),
    ensures
        filling::is_weave(frames, slots, slots.to_set()),
        filling::no_slot_names_a_host(slots),
{
    assert forall|i: int| 0 <= i < slots.len() implies slots.to_set().contains(#[trigger] slots[i]) by {
        assert(slots.contains(slots[i]));
    }
}

/// Where the marks of the template stand: begin and end of each.
spec fn page_cuts() -> Seq<(int, int)> {
    seq![
        (139, 148),
        (165, 172),
        (284, 293),
        (316, 324),
        (384, 391),
        (421, 430),
        (450, 459),
        (486, 495),
        (532, 541),
        (554, 563),
        (591, 600),
        (613, 620),
        (623, 635),
        (638, 650),
        (653, 663),
    ]
}

/// The marks of the template, in their order.
spec fn page_slots() -> Seq<Seq<char>> {
    seq![
        "{{TITLE}}"@,
        "{{CSS}}"@,
        "{{TITLE}}"@,
        "{{SPAN}}"@,
        "{{NTH}}"@,
        "{{TOTAL}}"@,
        "{{CARDS}}"@,
        "{{RATIO}}"@,
        "{{REPLY}}"@,
        "{{TREND}}"@,
        "{{CLOUD}}"@,
        "{{DIG}}"@,
        "{{KEYWORDS}}"@,
        "{{TOPWORDS}}"@,
        "{{CURIOS}}"@,
    ]
}

/// The marks of the template stand where they are said to stand, and nowhere else do two opening braces.
#[verifier::rlimit(30)]
#[verifier::spinoff_prover]
proof fn page_marks_stand()
    ensures
        filling::are_cuts(template::HTML_TEMPLATE@, page_cuts()),
        filling::pairless(template::HTML_TEMPLATE@, '/'),
        forall|i: int|
            0 <= i < template::HTML_TEMPLATE@.len() - 1 && #[trigger] template::HTML_TEMPLATE@[i] == '{' && template::HTML_TEMPLATE@[i
                + 1] == '{' ==> filling::begins_cut(page_cuts(), i),
        forall|i: int|
            0 <= i <= page_cuts().len() ==> #[trigger] filling::frame_stands(
                template::HTML_TEMPLATE@,
                page_cuts(),
                i,
            ),
        filling::slots_of(template::HTML_TEMPLATE@, page_cuts()) == page_slots(),
{
    reveal_strlit(r#"<!DOCTYPE html>
<html lang="zh-CN"><head><meta charset="utf-8">
<meta name="viewport" content="width=device-width,initial-scale=1">
<title>{{TITLE}}</title>
<style>
{{CSS}}
</style></head>
<body><div class="wrap">
  <header><button id="theme" type="button" title="切换深色">🌙</button><h1>{{TITLE}}</h1><div class="meta">{{SPAN}}</div></header>
  <div class="pills"><span class="pill">📅 第 {{NTH}} 天</span><span class="pill">💌 {{TOTAL}} 条消息</span></div>
  {{CARDS}}
  <section><h2>📊 发送比例</h2>{{RATIO}}</section>
  <section><h2>⚡ 回复速度</h2>{{REPLY}}</section>
  {{TREND}}
  <section><h2>☁️ 高频词云</h2>{{CLOUD}}</section>
  {{DIG}}
  {{KEYWORDS}}
  {{TOPWORDS}}
  {{CURIOS}}
  <footer>由 wechat-statistics 本地生成 · 全程离线，数据未离开本机</footer>
</div>
<script>
(function(){
  var tip=document.createElement('div'); tip.id='tip'; document.body.appendChild(tip);
  document.addEventListener('mouseover',function(e){
    var el=e.target.closest('[data-tip]'); if(!el){return;}
    tip.textContent=el.getAttribute('data-tip'); tip.style.opacity='1';
  });
  document.addEventListener('mousemove',function(e){
    tip.style.left=(e.clientX+14)+'px'; tip.style.top=(e.clientY+14)+'px';
  });
  document.addEventListener('mouseout',function(e){
    if(e.target.closest('[data-tip]')){tip.style.opacity='0';}
  });
  var t=document.getElementById('theme');
  if(t){t.onclick=function(){document.body.classList.toggle('dark');t.textContent=document.body.classList.contains('dark')?'☀️':'🌙';};}
  document.querySelectorAll('.lg-i').forEach(function(b){
    b.onclick=function(){
      var line=b.getAttribute('data-line');
      var p=document.querySelector('.bio-'+line);
      if(p){p.classList.toggle('hide');}
      b.classList.toggle('off');
    };
  });
  document.querySelectorAll('.tr-btn').forEach(function(b){
    b.onclick=function(){
      document.querySelectorAll('.tr-pane').forEach(function(p){p.style.display='none';});
      var pane=document.getElementById(b.getAttribute('data-show'));
      if(pane){pane.style.display='';}
      document.querySelectorAll('.tr-btn').forEach(function(x){x.classList.remove('active');});
      b.classList.add('active');
    };
  });
  var wdNames=['日','一','二','三','四','五','六'];
  var info=document.getElementById('hm-info');
  document.querySelectorAll('.hm-c[data-date]').forEach(function(c){
    c.style.cursor='pointer';
    c.onclick=function(){
      if(!info){return;}
      var d=c.getAttribute('data-date'); var n=parseInt(c.getAttribute('data-count')||'0',10);
      var dt=new Date(d+'T00:00:00');
      var wd=isNaN(dt)?'':' 周'+wdNames[dt.getDay()];
      var nice=d.replace(/-/g,'/');
      info.innerHTML='📅 <b>'+nice+'</b>'+wd+' · '+(n>0?'<b>'+n+'</b> 条消息':'这天没聊天');
    };
  });
})();
</script>
</body></html>"#);
    reveal_strlit("{{TITLE}}");
    reveal_strlit("{{CSS}}");
    reveal_strlit("{{SPAN}}");
    reveal_strlit("{{NTH}}");
    reveal_strlit("{{TOTAL}}");
    reveal_strlit("{{CARDS}}");
    reveal_strlit("{{RATIO}}");
    reveal_strlit("{{REPLY}}");
    reveal_strlit("{{TREND}}");
    reveal_strlit("{{CLOUD}}");
    reveal_strlit("{{DIG}}");
    reveal_strlit("{{KEYWORDS}}");
    reveal_strlit("{{TOPWORDS}}");
    reveal_strlit("{{CURIOS}}");
    let t = template::HTML_TEMPLATE@;
    let cuts = page_cuts();
    assert(t.len() == 2746);
    assert(cuts[0] == (139int, 148int));
    assert(cuts[1] == (165int, 172int));
    assert(cuts[2] == (284int, 293int));
    assert(cuts[3] == (316int, 324int));
    assert(cuts[4] == (384int, 391int));
    assert(cuts[5] == (421int, 430int));
    assert(cuts[6] == (450int, 459int));
    assert(cuts[7] == (486int, 495int));
    assert(cuts[8] == (532int, 541int));
    assert(cuts[9] == (554int, 563int));
    assert(cuts[10] == (591int, 600int));
    assert(cuts[11] == (613int, 620int));
    assert(cuts[12] == (623int, 635int));
    assert(cuts[13] == (638int, 650int));
    assert(cuts[14] == (653int, 663int));
    assert(t.subrange(139, 148) =~= "{{TITLE}}"@);
    assert(t.subrange(165, 172) =~= "{{CSS}}"@);
    assert(t.subrange(284, 293) =~= "{{TITLE}}"@);
    assert(t.subrange(316, 324) =~= "{{SPAN}}"@);
    assert(t.subrange(384, 391) =~= "{{NTH}}"@);
    assert(t.subrange(421, 430) =~= "{{TOTAL}}"@);
    assert(t.subrange(450, 459) =~= "{{CARDS}}"@);
    assert(t.subrange(486, 495) =~= "{{RATIO}}"@);
    assert(t.subrange(532, 541) =~= "{{REPLY}}"@);
    assert(t.subrange(554, 563) =~= "{{TREND}}"@);
    assert(t.subrange(591, 600) =~= "{{CLOUD}}"@);
    assert(t.subrange(613, 620) =~= "{{DIG}}"@);
    assert(t.subrange(623, 635) =~= "{{KEYWORDS}}"@);
    assert(t.subrange(638, 650) =~= "{{TOPWORDS}}"@);
    assert(t.subrange(653, 663) =~= "{{CURIOS}}"@);
    assert(filling::frame_stands(t, cuts, 0));
    assert(filling::frame_stands(t, cuts, 1));
    assert(filling::frame_stands(t, cuts, 2));
    assert(filling::frame_stands(t, cuts, 3));
    assert(filling::frame_stands(t, cuts, 4));
    assert(filling::frame_stands(t, cuts, 5));
    assert(filling::frame_stands(t, cuts, 6));
    assert(filling::frame_stands(t, cuts, 7));
    assert(filling::frame_stands(t, cuts, 8));
    assert(filling::frame_stands(t, cuts, 9));
    assert(filling::frame_stands(t, cuts, 10));
    assert(filling::frame_stands(t, cuts, 11));
    assert(filling::frame_stands(t, cuts, 12));
    assert(filling::frame_stands(t, cuts, 13));
    assert(filling::frame_stands(t, cuts, 14));
    assert(filling::frame_stands(t, cuts, 15));
    assert(filling::slots_of(t, cuts) =~= page_slots());
    assert forall|i: int| 0 <= i < 600 implies !(#[trigger] t[i] == '/' && t[i + 1] == '/') && (t[i] == '{' && t[i + 1]
        == '{' ==> i == 139 || i == 165 || i == 284 || i == 316 || i == 384 || i == 421 || i == 450 || i == 486 || i == 532 || i == 554 || i == 591) by {}
    assert forall|i: int| 600 <= i < 1200 implies !(#[trigger] t[i] == '/' && t[i + 1] == '/') && (t[i] == '{' && t[i + 1]
        == '{' ==> i == 613 || i == 623 || i == 638 || i == 653) by {}
    assert forall|i: int| 1200 <= i < 1800 implies !(#[trigger] t[i] == '/' && t[i + 1] == '/') && !(t[i] == '{' && t[i + 1]
        == '{') by {}
    assert forall|i: int| 1800 <= i < 2400 implies !(#[trigger] t[i] == '/' && t[i + 1] == '/') && !(t[i] == '{' && t[i + 1]
        == '{') by {}
    assert forall|i: int| 2400 <= i < 2745 implies !(#[trigger] t[i] == '/' && t[i + 1] == '/') && !(t[i] == '{' && t[i + 1]
        == '{') by {}
}

/// The slots of the template hold marks.
proof fn page_slots_are_marks()
    ensures
        all_marks(page_slots()),
{
    page_marks_are_marks();
}

/// The template is woven of frames and marks.
proof fn page_is_woven()
    ensures
        filling::woven(filling::frames_of(template::HTML_TEMPLATE@, page_cuts()), page_slots(), 0) == template::HTML_TEMPLATE@,
        filling::is_weave(filling::frames_of(template::HTML_TEMPLATE@, page_cuts()), page_slots(), page_slots().to_set()),
        filling::no_slot_names_a_host(page_slots()),
{
    let t = template::HTML_TEMPLATE@;
    let cuts = page_cuts();
    page_marks_stand();
    page_slots_are_marks();
    filling::frames_stand(t, cuts);
    filling::cut_and_woven(t, cuts, 0);
    assert(t.skip(0) =~= t);
    marks_are_left(filling::frames_of(t, cuts), page_slots());
}

/// Where the marks of the shell of the slides stand: begin and end of each.
spec fn deck_cuts() -> Seq<(int, int)> {
    seq![
        (139, 148),
        (164, 171),
        (363, 371),
        (544, 554),
    ]
}

/// The marks of the shell of the slides, in their order.
spec fn deck_slots() -> Seq<Seq<char>> {
    seq![
        "{{TITLE}}"@,
        "{{CSS}}"@,
        "{{DOTS}}"@,
        "{{SLIDES}}"@,
    ]
}

/// The marks of the shell of the slides stand where they are said to stand, and nowhere else do two opening braces.
#[verifier::rlimit(30)]
#[verifier::spinoff_prover]
proof fn deck_marks_stand()
    ensures
        filling::are_cuts(template::SLIDES_SHELL@, deck_cuts()),
        filling::pairless(template::SLIDES_SHELL@, '/'),
        forall|i: int|
            0 <= i < template::SLIDES_SHELL@.len() - 1 && #[trigger] template::SLIDES_SHELL@[i] == '{' && template::SLIDES_SHELL@[i
                + 1] == '{' ==> filling::begins_cut(deck_cuts(), i),
        forall|i: int|
            0 <= i <= deck_cuts().len() ==> #[trigger] filling::frame_stands(
                template::SLIDES_SHELL@,
                deck_cuts(),
                i,
            ),
        filling::slots_of(template::SLIDES_SHELL@, deck_cuts()) == deck_slots(),
{
    reveal_strlit(r#"<!DOCTYPE html>
<html lang="zh-CN"><head><meta charset="utf-8">
<meta name="viewport" content="width=device-width,initial-scale=1">
<title>{{TITLE}}</title>
<style>{{CSS}}</style></head>
<body>
<button id="theme" type="button" title="切换深色">🌙</button>
<div class="counter" id="counter"></div>
<div class="progress" id="progress"></div>
<div class="dots" id="dots">{{DOTS}}</div>
<div class="nav"><button id="prev" type="button">‹</button><button id="next" type="button">›</button></div>
<div class="deck" id="deck"><div class="track" id="track">{{SLIDES}}</div></div>
<script>
(function(){
  var tip=document.createElement('div'); tip.id='tip'; tip.style.cssText='position:fixed;pointer-events:none;background:#3a2b2e;color:#fff;padding:4px 9px;border-radius:6px;font-size:12px;opacity:0;transition:opacity .12s;z-index:99;white-space:nowrap;'; document.body.appendChild(tip);
  document.addEventListener('mouseover',function(e){var el=e.target.closest('[data-tip]');if(!el)return;tip.textContent=el.getAttribute('data-tip');tip.style.opacity='1';});
  document.addEventListener('mousemove',function(e){tip.style.left=(e.clientX+14)+'px';tip.style.top=(e.clientY+14)+'px';});
  document.addEventListener('mouseout',function(e){if(e.target.closest('[data-tip]'))tip.style.opacity='0';});
  var t=document.getElementById('theme'); if(t)t.onclick=function(){document.body.classList.toggle('dark');t.textContent=document.body.classList.contains('dark')?'☀️':'🌙';};
  document.querySelectorAll('.lg-i').forEach(function(b){b.onclick=function(){var line=b.getAttribute('data-line');var p=document.querySelector('.bio-'+line);if(p)p.classList.toggle('hide');b.classList.toggle('off');};});
  document.querySelectorAll('.tr-btn').forEach(function(b){b.onclick=function(){document.querySelectorAll('.tr-pane').forEach(function(p){p.style.display='none';});var pane=document.getElementById(b.getAttribute('data-show'));if(pane)pane.style.display='';document.querySelectorAll('.tr-btn').forEach(function(x){x.classList.remove('active');});b.classList.add('active');};});
  var wdNames=['日','一','二','三','四','五','六'];document.querySelectorAll('.hm-c[data-date]').forEach(function(c){c.style.cursor='pointer';c.onclick=function(){var d=c.getAttribute('data-date');var n=parseInt(c.getAttribute('data-count')||'0',10);var dt=new Date(d+'T00:00:00');var wd=isNaN(dt)?'':' 周'+wdNames[dt.getDay()];console.log(d.replace(/-/g,'/')+wd+' · '+n+' 条');};});
  var i=0,N=document.querySelectorAll('.slide').length,track=document.getElementById('track'),counter=document.getElementById('counter'),progress=document.getElementById('progress'),dots=document.querySelectorAll('#dots i');
  function render(){track.style.transform='translateX(-'+i*100+'%)';counter.textContent=(i+1)+' / '+N;progress.style.width=((i+1)/N*100)+'%';dots.forEach(function(d,k){d.classList.toggle('on',k===i);});}
  function go(n){i=Math.max(0,Math.min(N-1,n));render();}
  go(0);
  document.getElementById('prev').onclick=function(){go(i-1);};document.getElementById('next').onclick=function(){go(i+1);};
  dots.forEach(function(d,k){d.onclick=function(){go(k);};});
  document.addEventListener('keydown',function(e){if(['ArrowRight','ArrowDown',' ','PageDown'].indexOf(e.key)>=0){e.preventDefault();go(i+1);}else if(['ArrowLeft','ArrowUp','PageUp'].indexOf(e.key)>=0){e.preventDefault();go(i-1);}else if(e.key==='Home'){go(0);}else if(e.key==='End'){go(N-1);}});
  var lock=false;document.getElementById('deck').addEventListener('wheel',function(e){if(lock)return;lock=true;setTimeout(function(){lock=false;},650);if(e.deltaY>10)go(i+1);else if(e.deltaY<-10)go(i-1);},{passive:true});
  document.getElementById('deck').addEventListener('click',function(e){if(e.target.closest('button,.dots,#theme,.tr-toggle,.lg,.hm-grid,.hm-c,.kw,.cloud,.chip'))return;var x=e.clientX/window.innerWidth;go(x<0.3?i-1:i+1);});
  var sx=0,sy=0;document.getElementById('deck').addEventListener('touchstart',function(e){sx=e.touches[0].clientX;sy=e.touches[0].clientY;},{passive:true});document.getElementById('deck').addEventListener('touchend',function(e){var dx=e.changedTouches[0].clientX-sx,dy=e.changedTouches[0].clientY-sy;if(Math.abs(dx)>50&&Math.abs(dx)>Math.abs(dy))go(dx<0?i+1:i-1);},{passive:true});
})();
</script>
</body></html>"#);
    reveal_strlit("{{TITLE}}");
    reveal_strlit("{{CSS}}");
    reveal_strlit("{{DOTS}}");
    reveal_strlit("{{SLIDES}}");
    let t = template::SLIDES_SHELL@;
    let cuts = deck_cuts();
    assert(t.len() == 4272);
    assert(cuts[0] == (139int, 148int));
    assert(cuts[1] == (164int, 171int));
    assert(cuts[2] == (363int, 371int));
    assert(cuts[3] == (544int, 554int));
    assert(t.subrange(139, 148) =~= "{{TITLE}}"@);
    assert(t.subrange(164, 171) =~= "{{CSS}}"@);
    assert(t.subrange(363, 371) =~= "{{DOTS}}"@);
    assert(t.subrange(544, 554) =~= "{{SLIDES}}"@);
    assert(filling::frame_stands(t, cuts, 0));
    assert(filling::frame_stands(t, cuts, 1));
    assert(filling::frame_stands(t, cuts, 2));
    assert(filling::frame_stands(t, cuts, 3));
    assert(filling::frame_stands(t, cuts, 4));
    assert(filling::slots_of(t, cuts) =~= deck_slots());
    assert forall|i: int| 0 <= i < 600 implies !(#[trigger] t[i] == '/' && t[i + 1] == '/') && (t[i] == '{' && t[i + 1]
        == '{' ==> i == 139 || i == 164 || i == 363 || i == 544) by {}
    assert forall|i: int| 600 <= i < 1200 implies !(#[trigger] t[i] == '/' && t[i + 1] == '/') && !(t[i] == '{' && t[i + 1]
        == '{') by {}
    assert forall|i: int| 1200 <= i < 1800 implies !(#[trigger] t[i] == '/' && t[i + 1] == '/') && !(t[i] == '{' && t[i + 1]
        == '{') by {}
    assert forall|i: int| 1800 <= i < 2400 implies !(#[trigger] t[i] == '/' && t[i + 1] == '/') && !(t[i] == '{' && t[i + 1]
        == '{') by {}
    assert forall|i: int| 2400 <= i < 3000 implies !(#[trigger] t[i] == '/' && t[i + 1] == '/') && !(t[i] == '{' && t[i + 1]
        == '{') by {}
    assert forall|i: int| 3000 <= i < 3600 implies !(#[trigger] t[i] == '/' && t[i + 1] == '/') && !(t[i] == '{' && t[i + 1]
        == '{') by {}
    assert forall|i: int| 3600 <= i < 4200 implies !(#[trigger] t[i] == '/' && t[i + 1] == '/') && !(t[i] == '{' && t[i + 1]
        == '{') by {}
    assert forall|i: int| 4200 <= i < 4271 implies !(#[trigger] t[i] == '/' && t[i + 1] == '/') && !(t[i] == '{' && t[i + 1]
        == '{') by {}
}

/// The slots of the shell hold marks.
proof fn deck_slots_are_marks()
    ensures
        all_marks(deck_slots()),
{
    deck_marks_are_marks();
}

/// The shell of the slides is woven of frames and marks.
proof fn deck_is_woven()
    ensures
        filling::woven(filling::frames_of(template::SLIDES_SHELL@, deck_cuts()), deck_slots(), 0) == template::SLIDES_SHELL@,
        filling::is_weave(filling::frames_of(template::SLIDES_SHELL@, deck_cuts()), deck_slots(), deck_slots().to_set()),
        filling::no_slot_names_a_host(deck_slots()),
{
    let t = template::SLIDES_SHELL@;
    let cuts = deck_cuts();
    deck_marks_stand();
    deck_slots_are_marks();
    filling::frames_stand(t, cuts);
    filling::cut_and_woven(t, cuts, 0);
    assert(t.skip(0) =~= t);
    marks_are_left(filling::frames_of(t, cuts), deck_slots());
}

/// Two style sheets, each calm, are calm together.
proof fn styles_are_calm(base: Seq<char>, own: Seq<char>, c: char)
    requires
        filling::pairless(base, c),
        filling::pairless(own, c),
        c != '\n',
    ensures
        filling::pairless(render::styles(base, own), c),
{
    reveal_strlit("\n");
    filling::pairless_sum(base, "\n"@, c);
    filling::pairless_sum(base + "\n"@, own, c);
}

/// A number is written without braces and slashes.
proof fn numeral_is_calm(n: int, c: char)
    requires
        c == '{' || c == '/',
    ensures
        filling::pairless(text::numeral(n), c),
{
    let t = text::numeral(n);
    if n < 0 {
        text::digits_are_digits((-n) as nat);
        assert forall|i: int| 0 <= i < t.len() implies #[trigger] t[i] != c by {
            if i > 0 {
                assert(t[i] == text::digits((-n) as nat)[i - 1]);
            }
        }
    } else {
        text::digits_are_digits(n as nat);
    }
}

/// The dots of the slides hold no two opening braces and no two slashes in a row.
proof fn dots_are_calm(n: nat, c: char)
    requires
        c == '{' || c == '/',
    ensures
        filling::pairless(text::repeated("<i></i>"@, n), c),
        n > 0 ==> text::repeated("<i></i>"@, n).len() > 0 && text::repeated("<i></i>"@, n).last() == '>',
    decreases n,
{
    reveal_strlit("<i></i>");
    if n > 0 {
        dots_are_calm((n - 1) as nat, c);
        filling::pairless_sum(text::repeated("<i></i>"@, (n - 1) as nat), "<i></i>"@, c);
    }
}

/// No text holds the character twice in a row.
spec fn all_pairless(all: Seq<Seq<char>>, c: char) -> bool {
    forall|i: int| 0 <= i < all.len() ==> filling::pairless(#[trigger] all[i], c)
}

/// The marks of the page, in the order in which they are replaced.
spec fn page_marks() -> Seq<Seq<char>> {
    seq![
        "{{CSS}}"@,
        "{{TITLE}}"@,
        "{{NAME}}"@,
        "{{SPAN}}"@,
        "{{NTH}}"@,
        "{{TOTAL}}"@,
        "{{CARDS}}"@,
        "{{RATIO}}"@,
        "{{REPLY}}"@,
        "{{CLOUD}}"@,
        "{{KEYWORDS}}"@,
        "{{TOPWORDS}}"@,
        "{{DIG}}"@,
        "{{TREND}}"@,
        "{{CURIOS}}"@,
    ]
}

/// Replacing the marks of the page one by one is replacing them all in turn.
proof fn page_is_replaced(x: Seq<Seq<char>>)
    requires
        x.len() == 15,
    ensures
        render::filled_page(x[0], x[1], x[2], x[3], x[4], x[5], x[6], x[7], x[8], x[9], x[10], x[11], x[12], x[13], x[14]) == filling::replace_all(template::HTML_TEMPLATE@, page_marks(), x),
{
    reveal(render::filled_page);
    let t = template::HTML_TEMPLATE@;
    let m = Seq::<Seq<char>>::empty();
    let y = Seq::<Seq<char>>::empty();
    filling::replace_one_more(t, m, y, "{{CSS}}"@, x[0]);
    let m = m.push("{{CSS}}"@);
    let y = y.push(x[0]);
    filling::replace_one_more(t, m, y, "{{TITLE}}"@, x[1]);
    let m = m.push("{{TITLE}}"@);
    let y = y.push(x[1]);
    filling::replace_one_more(t, m, y, "{{NAME}}"@, x[2]);
    let m = m.push("{{NAME}}"@);
    let y = y.push(x[2]);
    filling::replace_one_more(t, m, y, "{{SPAN}}"@, x[3]);
    let m = m.push("{{SPAN}}"@);
    let y = y.push(x[3]);
    filling::replace_one_more(t, m, y, "{{NTH}}"@, x[4]);
    let m = m.push("{{NTH}}"@);
    let y = y.push(x[4]);
    filling::replace_one_more(t, m, y, "{{TOTAL}}"@, x[5]);
    let m = m.push("{{TOTAL}}"@);
    let y = y.push(x[5]);
    filling::replace_one_more(t, m, y, "{{CARDS}}"@, x[6]);
    let m = m.push("{{CARDS}}"@);
    let y = y.push(x[6]);
    filling::replace_one_more(t, m, y, "{{RATIO}}"@, x[7]);
    let m = m.push("{{RATIO}}"@);
    let y = y.push(x[7]);
    filling::replace_one_more(t, m, y, "{{REPLY}}"@, x[8]);
    let m = m.push("{{REPLY}}"@);
    let y = y.push(x[8]);
    filling::replace_one_more(t, m, y, "{{CLOUD}}"@, x[9]);
    let m = m.push("{{CLOUD}}"@);
    let y = y.push(x[9]);
    filling::replace_one_more(t, m, y, "{{KEYWORDS}}"@, x[10]);
    let m = m.push("{{KEYWORDS}}"@);
    let y = y.push(x[10]);
    filling::replace_one_more(t, m, y, "{{TOPWORDS}}"@, x[11]);
    let m = m.push("{{TOPWORDS}}"@);
    let y = y.push(x[11]);
    filling::replace_one_more(t, m, y, "{{DIG}}"@, x[12]);
    let m = m.push("{{DIG}}"@);
    let y = y.push(x[12]);
    filling::replace_one_more(t, m, y, "{{TREND}}"@, x[13]);
    let m = m.push("{{TREND}}"@);
    let y = y.push(x[13]);
    filling::replace_one_more(t, m, y, "{{CURIOS}}"@, x[14]);
    let m = m.push("{{CURIOS}}"@);
    let y = y.push(x[14]);
    assert(m =~= page_marks());
    assert(y =~= x);
}

/// The page holds no two opening braces in a row, hence no mark, where nothing that is put into it does.
/// And where nothing that is put into it holds two slashes in a row, it does not either: it names no
/// address of another host.
proof fn filled_page_stands_alone(x: Seq<Seq<char>>)
    requires
        x.len() == 15,
        all_pairless(x, '{'),
    ensures
        filling::pairless(render::filled_page(x[0], x[1], x[2], x[3], x[4], x[5], x[6], x[7], x[8], x[9], x[10], x[11], x[12], x[13], x[14]), '{'),
        all_pairless(x, '/') ==> filling::pairless(render::filled_page(x[0], x[1], x[2], x[3], x[4], x[5], x[6], x[7], x[8], x[9], x[10], x[11], x[12], x[13], x[14]), '/'),
{
    let marks = page_marks();
    let slots = page_slots();
    page_is_woven();
    page_is_replaced(x);
    page_marks_are_marks();
    assert(slots[0] == marks[1]);
    assert(slots[1] == marks[0]);
    assert(slots[2] == marks[1]);
    assert(slots[3] == marks[3]);
    assert(slots[4] == marks[4]);
    assert(slots[5] == marks[5]);
    assert(slots[6] == marks[6]);
    assert(slots[7] == marks[7]);
    assert(slots[8] == marks[8]);
    assert(slots[9] == marks[13]);
    assert(slots[10] == marks[9]);
    assert(slots[11] == marks[12]);
    assert(slots[12] == marks[10]);
    assert(slots[13] == marks[11]);
    assert(slots[14] == marks[14]);
    filling::full_weave_is_calm(filling::frames_of(template::HTML_TEMPLATE@, page_cuts()), slots, marks, x);
}

/// The marks of the deck of slides, in the order in which they are replaced.
spec fn deck_marks() -> Seq<Seq<char>> {
    seq![
        "{{CSS}}"@,
        "{{TITLE}}"@,
        "{{SLIDES}}"@,
        "{{DOTS}}"@,
    ]
}

/// Replacing the marks of the deck of slides one by one is replacing them all in turn.
proof fn deck_is_replaced(x: Seq<Seq<char>>)
    requires
        x.len() == 4,
    ensures
        render::filled_deck(x[0], x[1], x[2], x[3]) == filling::replace_all(template::SLIDES_SHELL@, deck_marks(), x),
{
    reveal(render::filled_deck);
    let t = template::SLIDES_SHELL@;
    let m = Seq::<Seq<char>>::empty();
    let y = Seq::<Seq<char>>::empty();
    filling::replace_one_more(t, m, y, "{{CSS}}"@, x[0]);
    let m = m.push("{{CSS}}"@);
    let y = y.push(x[0]);
    filling::replace_one_more(t, m, y, "{{TITLE}}"@, x[1]);
    let m = m.push("{{TITLE}}"@);
    let y = y.push(x[1]);
    filling::replace_one_more(t, m, y, "{{SLIDES}}"@, x[2]);
    let m = m.push("{{SLIDES}}"@);
    let y = y.push(x[2]);
    filling::replace_one_more(t, m, y, "{{DOTS}}"@, x[3]);
    let m = m.push("{{DOTS}}"@);
    let y = y.push(x[3]);
    assert(m =~= deck_marks());
    assert(y =~= x);
}

/// The deck of slides holds no two opening braces in a row, hence no mark, where nothing that is put into it does.
/// And where nothing that is put into it holds two slashes in a row, it does not either: it names no
/// address of another host.
proof fn filled_deck_stands_alone(x: Seq<Seq<char>>)
    requires
        x.len() == 4,
        all_pairless(x, '{'),
    ensures
        filling::pairless(render::filled_deck(x[0], x[1], x[2], x[3]), '{'),
        all_pairless(x, '/') ==> filling::pairless(render::filled_deck(x[0], x[1], x[2], x[3]), '/'),
{
    let marks = deck_marks();
    let slots = deck_slots();
    deck_is_woven();
    deck_is_replaced(x);
    deck_marks_are_marks();
    assert(slots[0] == marks[1]);
    assert(slots[1] == marks[0]);
    assert(slots[2] == marks[3]);
    assert(slots[3] == marks[2]);
    filling::full_weave_is_calm(filling::frames_of(template::SLIDES_SHELL@, deck_cuts()), slots, marks, x);
}

/// The styles of the single page are calm.
proof fn page_css_is_calm()
    ensures
        filling::pairless(render::styles(template::BASE_CSS@, template::DASHBOARD_CSS@), '{'),
        filling::pairless(render::styles(template::BASE_CSS@, template::DASHBOARD_CSS@), '/'),
{
    base_styles_are_calm();
    page_styles_are_calm();
    styles_are_calm(template::BASE_CSS@, template::DASHBOARD_CSS@, '{');
    styles_are_calm(template::BASE_CSS@, template::DASHBOARD_CSS@, '/');
}

/// None of the fills of the page holds the character twice in a row.
spec fn page_fills_pairless(
    css: Seq<char>,
    title: Seq<char>,
    name: Seq<char>,
    span: Seq<char>,
    nth: Seq<char>,
    total: Seq<char>,
    cards: Seq<char>,
    ratio: Seq<char>,
    reply: Seq<char>,
    cloud: Seq<char>,
    keywords: Seq<char>,
    topwords: Seq<char>,
    dig: Seq<char>,
    trend: Seq<char>,
    curios: Seq<char>,
    c: char,
) -> bool {
    &&& filling::pairless(css, c)
    &&& filling::pairless(title, c)
    &&& filling::pairless(name, c)
    &&& filling::pairless(span, c)
    &&& filling::pairless(nth, c)
    &&& filling::pairless(total, c)
    &&& filling::pairless(cards, c)
    &&& filling::pairless(ratio, c)
    &&& filling::pairless(reply, c)
    &&& filling::pairless(cloud, c)
    &&& filling::pairless(keywords, c)
    &&& filling::pairless(topwords, c)
    &&& filling::pairless(dig, c)
    &&& filling::pairless(trend, c)
    &&& filling::pairless(curios, c)
}

/// A page is as calm as what is put into it.
proof fn page_is_as_calm_as_its_fills(
    css: Seq<char>,
    title: Seq<char>,
    name: Seq<char>,
    span: Seq<char>,
    nth: Seq<char>,
    total: Seq<char>,
    cards: Seq<char>,
    ratio: Seq<char>,
    reply: Seq<char>,
    cloud: Seq<char>,
    keywords: Seq<char>,
    topwords: Seq<char>,
    dig: Seq<char>,
    trend: Seq<char>,
    curios: Seq<char>,
)
    requires
        page_fills_pairless(css, title, name, span, nth, total, cards, ratio, reply, cloud, keywords, topwords, dig, trend, curios, '{'),
    ensures
        filling::pairless(render::filled_page(css, title, name, span, nth, total, cards, ratio, reply, cloud, keywords, topwords, dig, trend, curios), '{'),
        page_fills_pairless(css, title, name, span, nth, total, cards, ratio, reply, cloud, keywords, topwords, dig, trend, curios, '/') ==> filling::pairless(render::filled_page(css, title, name, span, nth, total, cards, ratio, reply, cloud, keywords, topwords, dig, trend, curios), '/'),
{
    let x = seq![css, title, name, span, nth, total, cards, ratio, reply, cloud, keywords, topwords, dig, trend, curios];
    filled_page_stands_alone(x);
}

/// The styles of the slides are calm.
proof fn deck_css_is_calm()
    ensures
        filling::pairless(render::styles(template::BASE_CSS@, template::DECK_CSS@), '{'),
        filling::pairless(render::styles(template::BASE_CSS@, template::DECK_CSS@), '/'),
{
    base_styles_are_calm();
    deck_styles_are_calm();
    styles_are_calm(template::BASE_CSS@, template::DECK_CSS@, '{');
    styles_are_calm(template::BASE_CSS@, template::DECK_CSS@, '/');
}

/// A deck of slides is as calm as what is put into it.
proof fn deck_is_as_calm_as_its_fills(css: Seq<char>, title: Seq<char>, body: Seq<char>, dots: Seq<char>)
    requires
        filling::pairless(css, '{') && filling::pairless(title, '{') && filling::pairless(body, '{')
            && filling::pairless(dots, '{'),
    ensures
        filling::pairless(render::filled_deck(css, title, body, dots), '{'),
        filling::pairless(css, '/') && filling::pairless(title, '/') && filling::pairless(body, '/')
            && filling::pairless(dots, '/') ==> filling::pairless(render::filled_deck(css, title, body, dots), '/'),
{
    filled_deck_stands_alone(seq![css, title, body, dots]);
}

/// Escaping a text brings no two opening braces and no two slashes together.
proof fn escaped_text_is_calm(t: Seq<char>, c: char)
    requires
        filling::pairless(t, c),
        c == '{' || c == '/',
    ensures
        filling::pairless(markup::escaped(t), c),
        t.len() > 0 ==> markup::escaped(t).len() > 0 && (markup::escaped(t)[0] == c ==> t[0] == c),
    decreases t.len(),
{
    if t.len() > 0 {
        reveal_strlit("&amp;");
        reveal_strlit("&lt;");
        reveal_strlit("&gt;");
        reveal_strlit("&quot;");
        let rest = t.skip(1);
        assert forall|i: int| 0 <= i < rest.len() - 1 implies !(#[trigger] rest[i] == c && rest[i + 1] == c) by {
            assert(!(t[i + 1] == c && t[i + 1 + 1] == c));
        }
        escaped_text_is_calm(rest, c);
        if rest.len() > 0 {
            assert(!(t[0] == c && t[0int + 1] == c));
            assert(rest[0] == t[1]);
        }
        filling::pairless_sum(markup::escaped_char(t[0]), markup::escaped(rest), c);
    }
}

/// The titles are as calm as the name in them.
proof fn titles_are_calm(name: Seq<char>, c: char)
    requires
        filling::pairless(name, c),
        c == '{' || c == '/',
    ensures
        filling::pairless(render::page_title(name), c),
        filling::pairless(render::deck_title(name), c),
{
    reveal_strlit("💑 ");
    reveal_strlit(" 的情侣报告");
    reveal_strlit(" · 情侣报告");
    escaped_text_is_calm(name, c);
    filling::pairless_sum("💑 "@, markup::escaped(name), c);
    filling::pairless_sum("💑 "@ + markup::escaped(name), " 的情侣报告"@, c);
    filling::pairless_sum("💑 "@ + markup::escaped(name), " · 情侣报告"@, c);
}

/// The first and the last day are shown as calm as they are.
proof fn span_is_calm(r: CoupleReport, c: char)
    requires
        days_pairless(r, c),
        c == '{' || c == '/',
    ensures
        filling::pairless(render::span_markup(r), c),
{
    reveal_strlit(" ~ ");
    reveal_strlit("");
    if let (Some(a), Some(b)) = (r.first_day, r.last_day) {
        escaped_text_is_calm(a@, c);
        escaped_text_is_calm(b@, c);
        filling::pairless_sum(markup::escaped(a@), " ~ "@, c);
        filling::pairless_sum(markup::escaped(a@) + " ~ "@, markup::escaped(b@), c);
    }
}

/// Neither the first nor the last day holds the character twice in a row.
pub open spec fn days_pairless(r: CoupleReport, c: char) -> bool {
    &&& r.first_day matches Some(t) ==> filling::pairless(t@, c)
    &&& r.last_day matches Some(t) ==> filling::pairless(t@, c)
}

/// Neither the name and the days nor the parts that are put into the single page hold the character
/// twice in a row.
pub open spec fn page_parts_pairless(name: Seq<char>, r: CoupleReport, facts: Curios, f: Figures, c: char) -> bool {
    &&& filling::pairless(name, c)
    &&& days_pairless(r, c)
    &&& filling::pairless(parts::cards_markup(r, f), c)
    &&& filling::pairless(parts::ratio_markup(r, f), c)
    &&& filling::pairless(parts::reply_markup(r, f), c)
    &&& filling::pairless(parts::cloud_markup(r, f), c)
    &&& filling::pairless(parts::keywords_markup(r.text), c)
    &&& filling::pairless(parts::topwords_markup(r.words), c)
    &&& filling::pairless(parts::dig_markup(r.dig, f), c)
    &&& filling::pairless(charts::trend_section_markup(r.trend, r.trend_monthly, f), c)
    &&& filling::pairless(curios::curios_markup(facts, f), c)
}

/// Neither the name nor the slides hold the character twice in a row.
pub open spec fn deck_parts_pairless(name: Seq<char>, r: CoupleReport, facts: Curios, f: Figures, c: char) -> bool {
    &&& filling::pairless(name, c)
    &&& filling::pairless(text::joined(render::framed_slides(slides::slides(name, r, facts, f)), ""@), c)
}

/// The page of a report holds no two opening braces in a row, hence no mark of the template, where
/// nothing that is put into it does; and no two slashes in a row, hence no address of another host,
/// where nothing that is put into it does.
pub proof fn page_stands_alone(name: Seq<char>, r: CoupleReport, facts: Curios, f: Figures)
    requires
        page_parts_pairless(name, r, facts, f, '{'),
    ensures
        filling::pairless(render::page_text(name, r, facts, f), '{'),
        page_parts_pairless(name, r, facts, f, '/') ==> filling::pairless(
            render::page_text(name, r, facts, f),
            '/',
        ),
{
    page_css_is_calm();
    titles_are_calm(name, '{');
    escaped_text_is_calm(name, '{');
    span_is_calm(r, '{');
    if page_parts_pairless(name, r, facts, f, '/') {
        titles_are_calm(name, '/');
        escaped_text_is_calm(name, '/');
        span_is_calm(r, '/');
    }
    numeral_is_calm(r.nth_day_today as int, '{');
    numeral_is_calm(r.nth_day_today as int, '/');
    numeral_is_calm(r.total as int, '{');
    numeral_is_calm(r.total as int, '/');
    page_is_as_calm_as_its_fills(
        render::styles(template::BASE_CSS@, template::DASHBOARD_CSS@),
        render::page_title(name),
        markup::escaped(name),
        render::span_markup(r),
        text::numeral(r.nth_day_today as int),
        text::numeral(r.total as int),
        parts::cards_markup(r, f),
        parts::ratio_markup(r, f),
        parts::reply_markup(r, f),
        parts::cloud_markup(r, f),
        parts::keywords_markup(r.text),
        parts::topwords_markup(r.words),
        parts::dig_markup(r.dig, f),
        charts::trend_section_markup(r.trend, r.trend_monthly, f),
        curios::curios_markup(facts, f),
    );
}

/// The deck of slides of a report holds no two opening braces in a row, hence no mark of its shell,
/// where nothing that is put into it does; and no two slashes in a row, hence no address of another
/// host, where nothing that is put into it does.
pub proof fn deck_stands_alone(name: Seq<char>, r: CoupleReport, facts: Curios, f: Figures)
    requires
        deck_parts_pairless(name, r, facts, f, '{'),
    ensures
        filling::pairless(render::deck_text(name, r, facts, f), '{'),
        deck_parts_pairless(name, r, facts, f, '/') ==> filling::pairless(
            render::deck_text(name, r, facts, f),
            '/',
        ),
{
    let n = slides::slides(name, r, facts, f).len();
    deck_css_is_calm();
    titles_are_calm(name, '{');
    if deck_parts_pairless(name, r, facts, f, '/') {
        titles_are_calm(name, '/');
    }
    dots_are_calm(n, '{');
    dots_are_calm(n, '/');
    deck_is_as_calm_as_its_fills(
        render::styles(template::BASE_CSS@, template::DECK_CSS@),
        render::deck_title(name),
        text::joined(render::framed_slides(slides::slides(name, r, facts, f)), ""@),
        text::repeated("<i></i>"@, n),
    );
}

}

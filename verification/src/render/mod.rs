//! Pages that carry their own styles and scripts. What holds of them as a whole is shown in `whole`.

use vstd::prelude::*;
use vstd::string::*;

use crate::couple::CoupleReport;
use crate::curios::Curios;
use crate::model::Conversation;
use crate::render::figures::Figures;
use crate::text;

pub mod charts;
pub mod curios;
pub mod figures;
pub mod filling;
pub mod markup;
pub mod parts;
pub mod slides;
pub mod template;
pub mod whole;

verus! {

/// The first and the last day, where both are known.
pub open spec fn span_markup(r: CoupleReport) -> Seq<char> {
    match (r.first_day, r.last_day) {
        (Some(a), Some(b)) => markup::escaped(a@) + " ~ "@ + markup::escaped(b@),
        _ => ""@,
    }
}

/// The first and the last day, where both are known.
fn span_html(r: &CoupleReport) -> (s: String)
    ensures
        s@ == span_markup(*r),
{
    match (&r.first_day, &r.last_day) {
        (Some(a), Some(b)) => {
            let mut s = markup::esc(a.as_str());
            s.append(" ~ ");
            s.append(markup::esc(b.as_str()).as_str());
            s
        },
        _ => "".to_string(),
    }
}

/// Two style sheets, one below the other.
pub open spec fn styles(base: Seq<char>, own: Seq<char>) -> Seq<char> {
    base + "\n"@ + own
}

/// Two style sheets, one below the other.
fn styles_of(base: &str, own: &str) -> (s: String)
    ensures
        s@ == styles(base@, own@),
{
    let mut s = base.to_string();
    s.append("\n");
    s.append(own);
    s
}

/// The title of the page.
pub open spec fn page_title(name: Seq<char>) -> Seq<char> {
    "💑 "@ + markup::escaped(name) + " 的情侣报告"@
}

/// The title of the page.
fn page_title_of(name: &str) -> (out: String)
    ensures
        out@ == page_title(name@),
{
    let mut out = "💑 ".to_string();
    out.append(markup::esc(name).as_str());
    out.append(" 的情侣报告");
    out
}

/// The title of the slides.
pub open spec fn deck_title(name: Seq<char>) -> Seq<char> {
    "💑 "@ + markup::escaped(name) + " · 情侣报告"@
}

/// The title of the slides.
fn deck_title_of(name: &str) -> (out: String)
    ensures
        out@ == deck_title(name@),
{
    let mut out = "💑 ".to_string();
    out.append(markup::esc(name).as_str());
    out.append(" · 情侣报告");
    out
}

/// The template of the single page with each mark replaced, in turn.
#[verifier::opaque]
pub open spec fn filled_page(
    css: Seq<char>,
    title: Seq<char>,
    name: Seq<char>,
    span: Seq<char>,
    nth: Seq<char>,
    total: Seq<char>,
    cards: Seq<char>,
    ratio: Seq<char>,
    reply: Seq<char>,
    cloud: Seq<char>,
    keywords: Seq<char>,
    topwords: Seq<char>,
    dig: Seq<char>,
    trend: Seq<char>,
    curios: Seq<char>,
) -> Seq<char> {
    let page = template::HTML_TEMPLATE@;
    let page = text::replace_text(page, "{{CSS}}"@, css);
    let page = text::replace_text(page, "{{TITLE}}"@, title);
    let page = text::replace_text(page, "{{NAME}}"@, name);
    let page = text::replace_text(page, "{{SPAN}}"@, span);
    let page = text::replace_text(page, "{{NTH}}"@, nth);
    let page = text::replace_text(page, "{{TOTAL}}"@, total);
    let page = text::replace_text(page, "{{CARDS}}"@, cards);
    let page = text::replace_text(page, "{{RATIO}}"@, ratio);
    let page = text::replace_text(page, "{{REPLY}}"@, reply);
    let page = text::replace_text(page, "{{CLOUD}}"@, cloud);
    let page = text::replace_text(page, "{{KEYWORDS}}"@, keywords);
    let page = text::replace_text(page, "{{TOPWORDS}}"@, topwords);
    let page = text::replace_text(page, "{{DIG}}"@, dig);
    let page = text::replace_text(page, "{{TREND}}"@, trend);
    text::replace_text(page, "{{CURIOS}}"@, curios)
}

/// The single page.
pub open spec fn page_text(name: Seq<char>, r: CoupleReport, c: Curios, f: Figures) -> Seq<char> {
    filled_page(
        styles(template::BASE_CSS@, template::DASHBOARD_CSS@),
        page_title(name),
        markup::escaped(name),
        span_markup(r),
        text::numeral(r.nth_day_today as int),
        text::numeral(r.total as int),
        parts::cards_markup(r, f),
        parts::ratio_markup(r, f),
        parts::reply_markup(r, f),
        parts::cloud_markup(r, f),
        parts::keywords_markup(r.text),
        parts::topwords_markup(r.words),
        parts::dig_markup(r.dig, f),
        charts::trend_section_markup(r.trend, r.trend_monthly, f),
        curios::curios_markup(c, f),
    )
}

/// The report as a single page.
pub fn couple_html(_conv: &Conversation, name: &str, r: &CoupleReport, c: &Curios, f: &Figures) -> (page: String)
    requires
        figures::figures_fit(*r, *f),
    ensures
        page@ == page_text(name@, *r, *c, *f),
{
    let page = template::HTML_TEMPLATE.to_string();
    proof {
        reveal(filled_page);
        reveal_strlit("{{CSS}}");
        reveal_strlit("{{TITLE}}");
        reveal_strlit("{{NAME}}");
        reveal_strlit("{{SPAN}}");
        reveal_strlit("{{NTH}}");
        reveal_strlit("{{TOTAL}}");
        reveal_strlit("{{CARDS}}");
        reveal_strlit("{{RATIO}}");
        reveal_strlit("{{REPLY}}");
        reveal_strlit("{{CLOUD}}");
        reveal_strlit("{{KEYWORDS}}");
        reveal_strlit("{{TOPWORDS}}");
        reveal_strlit("{{DIG}}");
        reveal_strlit("{{TREND}}");
        reveal_strlit("{{CURIOS}}");
    }
    let page = text::replaced_text(page.as_str(), "{{CSS}}", styles_of(template::BASE_CSS, template::DASHBOARD_CSS).as_str());
    let page = text::replaced_text(page.as_str(), "{{TITLE}}", page_title_of(name).as_str());
    let page = text::replaced_text(page.as_str(), "{{NAME}}", markup::esc(name).as_str());
    let page = text::replaced_text(page.as_str(), "{{SPAN}}", span_html(r).as_str());
    let page = text::replaced_text(page.as_str(), "{{NTH}}", text::numeral_of(r.nth_day_today).as_str());
    let page = text::replaced_text(page.as_str(), "{{TOTAL}}", text::numeral_of(r.total).as_str());
    let page = text::replaced_text(page.as_str(), "{{CARDS}}", parts::cards_html(r, f).as_str());
    let page = text::replaced_text(page.as_str(), "{{RATIO}}", parts::ratio_html(r, f).as_str());
    let page = text::replaced_text(page.as_str(), "{{REPLY}}", parts::reply_html(r, f).as_str());
    let page = text::replaced_text(page.as_str(), "{{CLOUD}}", parts::cloud_html(r, f).as_str());
    let page = text::replaced_text(page.as_str(), "{{KEYWORDS}}", parts::keywords_html(r).as_str());
    let page = text::replaced_text(page.as_str(), "{{TOPWORDS}}", parts::topwords_html(r).as_str());
    let page = text::replaced_text(page.as_str(), "{{DIG}}", parts::dig_html(r, f).as_str());
    let page = text::replaced_text(page.as_str(), "{{TREND}}", charts::trend_section(&r.trend, &r.trend_monthly, f).as_str());
    let page = text::replaced_text(page.as_str(), "{{CURIOS}}", curios::curios_html(c, f).as_str());
    page
}

/// A slide in its frame.
pub open spec fn framed(slide: Seq<char>) -> Seq<char> {
    "<div class=\"slide\">"@ + slide + "</div>"@
}

/// A slide in its frame.
fn framed_of(slide: &str) -> (out: String)
    ensures
        out@ == framed(slide@),
{
    let mut out = "<div class=\"slide\">".to_string();
    out.append(slide);
    out.append("</div>");
    out
}

/// Slides in their frames.
pub open spec fn framed_slides(all: Seq<Seq<char>>) -> Seq<Seq<char>> {
    Seq::new(all.len(), |i: int| framed(all[i]))
}

/// Slides in their frames.
fn framed_slides_of(all: &Vec<String>) -> (r: Vec<String>)
    ensures
        text::texts(r@) == framed_slides(text::texts(all@)),
{
    let ghost whole = framed_slides(text::texts(all@));
    let mut r: Vec<String> = Vec::new();
    let mut i: usize = 0;
    assert(text::texts(r@) =~= whole.take(0));
    while i < all.len()
        invariant
            i <= all@.len(),
            whole == framed_slides(text::texts(all@)),
            text::texts(r@) == whole.take(i as int),
        decreases all@.len() - i,
    {
        text::put(&mut r, framed_of(all[i].as_str()));
        assert(whole.take(i + 1) =~= whole.take(i as int).push(whole[i as int]));
        i = i + 1;
    }
    assert(whole.take(i as int) =~= whole);
    r
}

/// The shell of the slides with each mark replaced, in turn.
#[verifier::opaque]
pub open spec fn filled_deck(css: Seq<char>, title: Seq<char>, slides: Seq<char>, dots: Seq<char>) -> Seq<char> {
    let page = template::SLIDES_SHELL@;
    let page = text::replace_text(page, "{{CSS}}"@, css);
    let page = text::replace_text(page, "{{TITLE}}"@, title);
    let page = text::replace_text(page, "{{SLIDES}}"@, slides);
    text::replace_text(page, "{{DOTS}}"@, dots)
}

/// The slides, and one dot for each of them.
pub open spec fn deck_text(name: Seq<char>, r: CoupleReport, c: Curios, f: Figures) -> Seq<char> {
    let all = slides::slides(name, r, c, f);
    filled_deck(
        styles(template::BASE_CSS@, template::DECK_CSS@),
        deck_title(name),
        text::joined(framed_slides(all), ""@),
        text::repeated("<i></i>"@, all.len()),
    )
}

/// The report as slides.
pub fn couple_slides(_conv: &Conversation, name: &str, r: &CoupleReport, c: &Curios, f: &Figures) -> (page: String)
    requires
        figures::figures_fit(*r, *f),
        slides::chars_countable(r.text),
    ensures
        page@ == deck_text(name@, *r, *c, *f),
{
    let all = slides::build_slides(name, r, c, f);
    assert(text::texts(all@).len() == all@.len());
    let body = text::join(&framed_slides_of(&all), "");
    let dots = text::repeat("<i></i>", all.len());
    proof {
        reveal(filled_deck);
        reveal_strlit("{{CSS}}");
        reveal_strlit("{{TITLE}}");
        reveal_strlit("{{SLIDES}}");
        reveal_strlit("{{DOTS}}");
    }
    let page = template::SLIDES_SHELL.to_string();
    let page = text::replaced_text(
        page.as_str(),
        "{{CSS}}",
        styles_of(template::BASE_CSS, template::DECK_CSS).as_str(),
    );
    let page = text::replaced_text(page.as_str(), "{{TITLE}}", deck_title_of(name).as_str());
    let page = text::replaced_text(page.as_str(), "{{SLIDES}}", body.as_str());
    text::replaced_text(page.as_str(), "{{DOTS}}", dots.as_str())
}

}

//! `ja-no-abusage` — flag common Japanese misuses (誤用) from a fixed dictionary, reporting the
//! incorrect form together with the recommended correct form.
//!
//! A surface rule: for each dictionary entry in turn, every non-overlapping occurrence of the
//! misused phrase in the node's text is reported with the entry's message. Report-only.
use vstd::prelude::*;
use crate::ast::{abs_span, make_span, plain, Context, Lang, NodeKind, NodeRef, Report, Rule, RuleMeta, Severity};
use crate::rules::no_todo::{find_from, lemma_first_match_range, matches_from};
use crate::text::{byte_at, byte_offsets, fits_usize, offsets_ok, str_chars};

verus! {

/// The rule id.
pub const ID: &'static str = "ja-no-abusage";

/// The node kinds the rule visits.
pub open spec fn node_kinds() -> Seq<NodeKind> {
    seq![NodeKind::Paragraph, NodeKind::Heading, NodeKind::TableCell]
}

/// Flags common Japanese misuses (誤用).
pub struct JaNoAbusage {
    pub meta: RuleMeta,
}

/// The dictionary: each misused phrase with its diagnostic (which names the correct form).
pub open spec fn abusage_dict() -> Seq<(Seq<char>, Seq<char>)> {
    seq![
        ("を適応"@, "「を適応」は「を適用」の誤用である可能性があります。適応 → 適用"@),
        ("可変する"@, "「可変する」という使い方は適切ではありません。「可逆」と同じ使い方になります。可変は状態の形容であり、「変更できる」「可変長の」などの形で使ってください。"@),
        ("値を返却する"@, "「値を返却する」は「値を返す」の誤用です。正しくは「値を返す」。"@),
        ("例外を補足"@, "「例外を補足」は「例外を捕捉」の誤用です。正しくは「例外を捕捉」。"@),
        ("似て異なるもの"@, "「似て異なるもの」は「似て非なるもの」の誤用です。正しくは「似て非なるもの」。"@),
        ("愛苦しい"@, "「愛苦しい」は「愛くるしい」の誤用です。正しくは「愛くるしい」。"@),
        ("悪どい"@, "「悪どい」は「あくどい」の誤用です。正しくは「あくどい」。"@),
        ("転稼"@, "「転稼」は「転嫁」の誤用です。正しくは「転嫁」。"@),
        ("こんにちわ"@, "「こんにちわ」は「こんにちは」の誤用です。正しくは「こんにちは」。"@),
        ("論戦を張る"@, "「論戦を張る」は「論陣を張る」の誤用です。正しくは「論陣を張る」。"@),
        ("寸暇を惜しまず"@, "「寸暇を惜しまず」は「寸暇を惜しんで」の誤用です。正しくは「寸暇を惜しんで」。"@),
        ("寸暇を置かず"@, "「寸暇を置かず」は「間を置かず」の誤用です。正しくは「間を置かず」。"@),
        ("一つ返事"@, "「一つ返事」は「二つ返事」の誤用です。正しくは「二つ返事」。"@),
        ("怒り心頭に達する"@, "「怒り心頭に達する」は「怒り心頭に発する」の誤用です。正しくは「怒り心頭に発する」。"@),
        ("熱にうなされる"@, "「熱にうなされる」は「熱に浮かされる」の誤用です。正しくは「熱に浮かされる」。"@),
        ("やるせぬ"@, "「やるせぬ」は「やるせない」の誤用です。正しくは「やるせない」。"@),
        ("雪辱を晴らす"@, "「雪辱を晴らす」は「雪辱を果たす」の誤用です。正しくは「雪辱を果たす」。"@),
        ("うる覚え"@, "「うる覚え」は「うろ覚え」の誤用です。正しくは「うろ覚え」。"@),
        ("口先三寸"@, "「口先三寸」は「舌先三寸」の誤用です。正しくは「舌先三寸」。"@),
        ("舌の先の乾かぬ"@, "「舌の先の乾かぬ」は「舌の根の乾かぬ」の誤用です。正しくは「舌の根の乾かぬ」。"@),
        ("悪評さくさく"@, "「悪評さくさく」は「悪評高い」の誤用です。正しくは「悪評高い」。"@),
        ("悪評嘖嘖"@, "「悪評嘖嘖」は「悪評高い」の誤用です。正しくは「悪評高い」。"@),
        ("悪評嘖々"@, "「悪評嘖々」は「悪評高い」の誤用です。正しくは「悪評高い」。"@),
        ("器管"@, "「器管」は「器官」の誤用です。正しくは「器官」。"@),
        ("上や下への"@, "「上や下への」は「上を下への」の誤用です。正しくは「上を下への」。"@),
        ("上へ下への"@, "「上へ下への」は「上を下への」の誤用です。正しくは「上を下への」。"@),
        ("押しも押されぬ"@, "「押しも押されぬ」は「押しも押されもせぬ」の誤用です。正しくは「押しも押されもせぬ」。"@),
        ("掻き入れ"@, "「掻き入れ」は「書き入れ」の誤用です。正しくは「書き入れ」。"@),
        ("引くに引かれない"@, "「引くに引かれない」は「引くに引けない」の誤用です。正しくは「引くに引けない」。"@),
        ("死ぬに死なれない"@, "「死ぬに死なれない」は「死ぬに死ねない」の誤用です。正しくは「死ぬに死ねない」。"@),
        ("腹が煮えくり返る"@, "「腹が煮えくり返る」は「腸が煮えくり返る」の誤用です。正しくは「腸が煮えくり返る」。"@),
        ("胸先三寸"@, "「胸先三寸」は「胸三寸」の誤用です。正しくは「胸三寸」。"@),
        ("肝に据えかねる"@, "「肝に据えかねる」は「腹に据えかねる」の誤用です。正しくは「腹に据えかねる」。"@),
        ("へそを抱えて"@, "「へそを抱えて」は「腹を抱えて」の誤用です。正しくは「腹を抱えて」。"@),
        ("後ろ立て"@, "「後ろ立て」は「後ろ盾」の誤用です。正しくは「後ろ盾」。"@),
        ("絶対絶命"@, "「絶対絶命」は「絶体絶命」の誤用です。正しくは「絶体絶命」。"@),
        ("有頂点"@, "「有頂点」は「有頂天」の誤用です。正しくは「有頂天」。"@),
        ("一発即発"@, "「一発即発」は「一触即発」の誤用です。正しくは「一触即発」。"@),
        ("意気高々"@, "「意気高々」は「意気揚々」の誤用です。正しくは「意気揚々」。"@),
        ("青色吐息"@, "「青色吐息」は「青息吐息」の誤用です。正しくは「青息吐息」。"@),
        ("固定概念"@, "「固定概念」は「固定観念」の誤用です。正しくは「固定観念」。"@),
        ("目を止め"@, "「目を止め」は「目を留め」の誤用です。「止」は動作の停止、「留」は意識を向ける時に使います。正しくは「目を留め」。"@),
        ("睨みを効かせ"@, "「睨みを効かせ」は「睨みを利かせ」の誤用です。正しくは「睨みを利かせ」。"@),
        ("恩を着る"@, "「恩を着る」は「恩に着る」の誤用です。正しくは「恩に着る」。"@),
        ("脚光を集め"@, "「脚光を集め」は「脚光を浴び」の誤用です。正しくは「脚光を浴び」。"@),
        ("一同に会する"@, "「一同に会する」は「一堂に会する」の誤用です。正しくは「一堂に会する」。"@)
    ]
}

fn dictionary() -> (d: Vec<(&'static str, &'static str)>)
    ensures
        d@.map_values(|e: (&'static str, &'static str)| (e.0@, e.1@)) == abusage_dict(),
{
    let d = vec![
        ("を適応", "「を適応」は「を適用」の誤用である可能性があります。適応 → 適用"),
        ("可変する", "「可変する」という使い方は適切ではありません。「可逆」と同じ使い方になります。可変は状態の形容であり、「変更できる」「可変長の」などの形で使ってください。"),
        ("値を返却する", "「値を返却する」は「値を返す」の誤用です。正しくは「値を返す」。"),
        ("例外を補足", "「例外を補足」は「例外を捕捉」の誤用です。正しくは「例外を捕捉」。"),
        ("似て異なるもの", "「似て異なるもの」は「似て非なるもの」の誤用です。正しくは「似て非なるもの」。"),
        ("愛苦しい", "「愛苦しい」は「愛くるしい」の誤用です。正しくは「愛くるしい」。"),
        ("悪どい", "「悪どい」は「あくどい」の誤用です。正しくは「あくどい」。"),
        ("転稼", "「転稼」は「転嫁」の誤用です。正しくは「転嫁」。"),
        ("こんにちわ", "「こんにちわ」は「こんにちは」の誤用です。正しくは「こんにちは」。"),
        ("論戦を張る", "「論戦を張る」は「論陣を張る」の誤用です。正しくは「論陣を張る」。"),
        ("寸暇を惜しまず", "「寸暇を惜しまず」は「寸暇を惜しんで」の誤用です。正しくは「寸暇を惜しんで」。"),
        ("寸暇を置かず", "「寸暇を置かず」は「間を置かず」の誤用です。正しくは「間を置かず」。"),
        ("一つ返事", "「一つ返事」は「二つ返事」の誤用です。正しくは「二つ返事」。"),
        ("怒り心頭に達する", "「怒り心頭に達する」は「怒り心頭に発する」の誤用です。正しくは「怒り心頭に発する」。"),
        ("熱にうなされる", "「熱にうなされる」は「熱に浮かされる」の誤用です。正しくは「熱に浮かされる」。"),
        ("やるせぬ", "「やるせぬ」は「やるせない」の誤用です。正しくは「やるせない」。"),
        ("雪辱を晴らす", "「雪辱を晴らす」は「雪辱を果たす」の誤用です。正しくは「雪辱を果たす」。"),
        ("うる覚え", "「うる覚え」は「うろ覚え」の誤用です。正しくは「うろ覚え」。"),
        ("口先三寸", "「口先三寸」は「舌先三寸」の誤用です。正しくは「舌先三寸」。"),
        ("舌の先の乾かぬ", "「舌の先の乾かぬ」は「舌の根の乾かぬ」の誤用です。正しくは「舌の根の乾かぬ」。"),
        ("悪評さくさく", "「悪評さくさく」は「悪評高い」の誤用です。正しくは「悪評高い」。"),
        ("悪評嘖嘖", "「悪評嘖嘖」は「悪評高い」の誤用です。正しくは「悪評高い」。"),
        ("悪評嘖々", "「悪評嘖々」は「悪評高い」の誤用です。正しくは「悪評高い」。"),
        ("器管", "「器管」は「器官」の誤用です。正しくは「器官」。"),
        ("上や下への", "「上や下への」は「上を下への」の誤用です。正しくは「上を下への」。"),
        ("上へ下への", "「上へ下への」は「上を下への」の誤用です。正しくは「上を下への」。"),
        ("押しも押されぬ", "「押しも押されぬ」は「押しも押されもせぬ」の誤用です。正しくは「押しも押されもせぬ」。"),
        ("掻き入れ", "「掻き入れ」は「書き入れ」の誤用です。正しくは「書き入れ」。"),
        ("引くに引かれない", "「引くに引かれない」は「引くに引けない」の誤用です。正しくは「引くに引けない」。"),
        ("死ぬに死なれない", "「死ぬに死なれない」は「死ぬに死ねない」の誤用です。正しくは「死ぬに死ねない」。"),
        ("腹が煮えくり返る", "「腹が煮えくり返る」は「腸が煮えくり返る」の誤用です。正しくは「腸が煮えくり返る」。"),
        ("胸先三寸", "「胸先三寸」は「胸三寸」の誤用です。正しくは「胸三寸」。"),
        ("肝に据えかねる", "「肝に据えかねる」は「腹に据えかねる」の誤用です。正しくは「腹に据えかねる」。"),
        ("へそを抱えて", "「へそを抱えて」は「腹を抱えて」の誤用です。正しくは「腹を抱えて」。"),
        ("後ろ立て", "「後ろ立て」は「後ろ盾」の誤用です。正しくは「後ろ盾」。"),
        ("絶対絶命", "「絶対絶命」は「絶体絶命」の誤用です。正しくは「絶体絶命」。"),
        ("有頂点", "「有頂点」は「有頂天」の誤用です。正しくは「有頂天」。"),
        ("一発即発", "「一発即発」は「一触即発」の誤用です。正しくは「一触即発」。"),
        ("意気高々", "「意気高々」は「意気揚々」の誤用です。正しくは「意気揚々」。"),
        ("青色吐息", "「青色吐息」は「青息吐息」の誤用です。正しくは「青息吐息」。"),
        ("固定概念", "「固定概念」は「固定観念」の誤用です。正しくは「固定観念」。"),
        ("目を止め", "「目を止め」は「目を留め」の誤用です。「止」は動作の停止、「留」は意識を向ける時に使います。正しくは「目を留め」。"),
        ("睨みを効かせ", "「睨みを効かせ」は「睨みを利かせ」の誤用です。正しくは「睨みを利かせ」。"),
        ("恩を着る", "「恩を着る」は「恩に着る」の誤用です。正しくは「恩に着る」。"),
        ("脚光を集め", "「脚光を集め」は「脚光を浴び」の誤用です。正しくは「脚光を浴び」。"),
        ("一同に会する", "「一同に会する」は「一堂に会する」の誤用です。正しくは「一堂に会する」。")
    ];
    assert(d@.map_values(|e: (&'static str, &'static str)| (e.0@, e.1@)) =~= abusage_dict());
    d
}

/// Reports for the non-overlapping occurrences of `wrong`, left to right.
pub open spec fn entry_reports(base: u32, t: Seq<char>, wrong: Seq<char>, message: Seq<char>) -> Seq<Report> {
    matches_from(t, wrong, 0, true).map_values(
        |k: int| plain(abs_span(base, byte_at(t, k) as int, byte_at(t, k + wrong.len()) as int), message),
    )
}

/// Reports for the first `n` dictionary entries, entry by entry.
pub open spec fn abusage_reports(base: u32, t: Seq<char>, n: int) -> Seq<Report>
    decreases n,
{
    if n <= 0 {
        seq![]
    } else {
        abusage_reports(base, t, n - 1) + entry_reports(base, t, abusage_dict()[n - 1].0, abusage_dict()[n - 1].1)
    }
}

impl JaNoAbusage {
    /// Construct the rule (no options).
    pub fn new() -> (r: JaNoAbusage)
        ensures
            r.meta.id@ == ID@,
            r.meta.node_kinds@ == node_kinds(),
            r.meta.default_severity == Severity::Warning,
            r.meta.lang == Some(Lang::Ja),
    {
        JaNoAbusage {
            meta: RuleMeta::new(ID, Severity::Warning, vec![NodeKind::Paragraph, NodeKind::Heading, NodeKind::TableCell])
                .for_language(Lang::Ja),
        }
    }

    /// Report every occurrence of `wrong` with `message`.
    fn report_entry(base: u32, t: &Vec<char>, offs: &Vec<usize>, wrong: &str, message: &str, cx: &mut Context)
        requires
            old(cx).wf(),
            offsets_ok(t@, offs@),
        ensures
            final(cx).wf(),
            final(cx).id() == old(cx).id(),
            final(cx).severity() == old(cx).severity(),
            final(cx).reports() == old(cx).reports() + entry_reports(base, t@, wrong@, message@),
    {
        let p = str_chars(wrong);
        let ghost ms_all = matches_from(t@, p@, 0, true);
        let ghost r0 = cx.reports();
        let ghost mk = |k: int| plain(abs_span(base, byte_at(t@, k) as int, byte_at(t@, k + p@.len()) as int), message@);
        let tl = t.len();
        if p.len() == 0 {
            assert(ms_all == Seq::<int>::empty());
            assert(cx.reports() =~= r0 + entry_reports(base, t@, wrong@, message@));
            return;
        }
        let mut search: usize = 0;
        let mut done = false;
        let ghost mut seen: Seq<int> = seq![];
        while !done
            invariant
                offsets_ok(t@, offs@),
                p@ == wrong@,
                p@.len() > 0,
                tl == t@.len(),
                search <= t@.len(),
                mk == (|k: int| plain(abs_span(base, byte_at(t@, k) as int, byte_at(t@, k + p@.len()) as int), message@)),
                cx.wf(),
                cx.id() == old(cx).id(),
                cx.severity() == old(cx).severity(),
                r0 == old(cx).reports(),
                ms_all == seen + if done { seq![] } else { matches_from(t@, p@, search as int, true) },
                cx.reports() == r0 + seen.map_values(mk),
            decreases t@.len() - search, if done { 0int } else { 1int },
        {
            match find_from(t.as_slice(), p.as_slice(), search, true) {
                Some(k) => {
                    proof {
                        lemma_first_match_range(t@, p@, search as int, true);
                    }
                    let end = k + p.len();
                    let ghost seen0 = seen;
                    proof {
                        seen = seen.push(k as int);
                    }
                    cx.report(make_span(base, offs[k], offs[end]), message.to_string());
                    assert(seen.map_values(mk) =~= seen0.map_values(mk).push(mk(k as int)));
                    assert(matches_from(t@, p@, search as int, true) == seq![k as int] + matches_from(t@, p@, end as int, true));
                    assert(ms_all =~= seen + matches_from(t@, p@, end as int, true));
                    search = end;
                },
                None => {
                    done = true;
                    assert(ms_all =~= seen);
                },
            }
        }
    }

    fn check_text(base: u32, text: &str, cx: &mut Context)
        requires
            old(cx).wf(),
            fits_usize(text@),
        ensures
            final(cx).wf(),
            final(cx).id() == old(cx).id(),
            final(cx).severity() == old(cx).severity(),
            final(cx).reports() == old(cx).reports() + abusage_reports(base, text@, abusage_dict().len() as int),
    {
        let t = str_chars(text);
        let offs = byte_offsets(&t);
        let dict = dictionary();
        let ghost r0 = cx.reports();
        let mut i: usize = 0;
        while i < dict.len()
            invariant
                i <= dict.len(),
                t@ == text@,
                offsets_ok(t@, offs@),
                dict@.map_values(|e: (&'static str, &'static str)| (e.0@, e.1@)) == abusage_dict(),
                cx.wf(),
                cx.id() == old(cx).id(),
                cx.severity() == old(cx).severity(),
                r0 == old(cx).reports(),
                cx.reports() == r0 + abusage_reports(base, t@, i as int),
            decreases dict.len() - i,
        {
            let (wrong, message) = dict[i];
            assert(abusage_dict()[i as int] == (wrong@, message@));
            Self::report_entry(base, &t, &offs, wrong, message, cx);
            i = i + 1;
        }
    }
}

impl Rule for JaNoAbusage {
    open spec fn spec_meta(&self) -> RuleMeta {
        self.meta
    }

    open spec fn spec_check(&self, node: NodeRef) -> Seq<Report> {
        abusage_reports(node.span.start, node.text@, abusage_dict().len() as int)
    }

    fn meta(&self) -> (m: &RuleMeta) {
        &self.meta
    }

    fn check(&self, node: &NodeRef, cx: &mut Context) {
        Self::check_text(node.span.start, node.text.as_str(), cx);
    }
}

impl Default for JaNoAbusage {
    /// The rule with its default options, as [`JaNoAbusage::new`] builds it.
    fn default() -> (r: JaNoAbusage)
        ensures
            r.meta.id@ == ID@,
            r.meta.node_kinds@ == node_kinds(),
            r.meta.default_severity == Severity::Warning,
            r.meta.lang == Some(Lang::Ja),
    {
        JaNoAbusage::new()
    }
}

} // verus!

use wechat_statistics::lexical::{
    collect_words, cut_all, keep, signature_words, signature_words_of, stopwords, word_freq, word_freq_of,
};
use wechat_statistics::model::TextMessage;

fn tm(time: i64, sender: i64, text: &str) -> TextMessage {
    TextMessage { create_time: time, sender_id: sender, text: Some(text.into()) }
}

fn words(list: &[&str]) -> Vec<String> {
    list.iter().map(|w| w.to_string()).collect()
}

#[test]
fn segments_and_ranks() {
    let texts = vec![
        tm(1, 2, "今天天气真好，我们去爬山吧，爬山很累但很开心"),
        tm(2, 1, "好啊，一起爬山！天气真不错"),
        tm(3, 2, "嗯嗯，记得带水"),
    ];
    let wf = word_freq(&texts, Some(1), 5);
    let top: Vec<&str> = wf.overall.iter().map(|(w, _)| w.as_str()).collect();
    assert!(top.contains(&"爬山"), "{top:?}");
    assert!(top.contains(&"天气"), "{top:?}");
    assert!(!top.contains(&"我们"));
    assert!(wf.mine.iter().any(|(w, _)| w == "爬山"));
}

#[test]
fn filters_digits_and_punct() {
    let texts = vec![tm(1, 1, "123456 ，。！ 天气真好")];
    let wf = word_freq(&texts, Some(1), 10);
    let words: Vec<&str> = wf.overall.iter().map(|(w, _)| w.as_str()).collect();
    assert!(words.contains(&"天气"));
    assert!(!words.iter().any(|w| w.chars().all(|c| c.is_ascii_digit())));
}

#[test]
fn words_are_kept_or_not() {
    let stop = stopwords();
    assert!(keep("爬山", &stop));
    assert!(!keep("我们", &stop));
    assert!(!keep("2024", &stop));
    assert!(!keep("。。", &stop));
    assert!(keep("山", &stop));
    assert!(!keep("a", &stop));
    assert!(!keep("", &stop));
}

#[test]
fn cuts_are_the_words_of_the_segmenter() {
    let texts = vec![tm(1, 1, "今天天气真好"), TextMessage { create_time: 2, sender_id: 1, text: None }];
    let cuts = cut_all(&texts);
    assert_eq!(cuts.len(), 2);
    assert_eq!(cuts[0].concat(), "今天天气真好");
    assert!(cuts[0].len() > 1);
    assert!(cuts[1].is_empty());
}

#[test]
fn words_of_either_side_are_all_words() {
    let texts = vec![tm(1, 1, "a"), tm(2, 2, "b"), tm(3, 1, "c")];
    let cuts = vec![words(&["爬山", "天气"]), words(&["爬山"]), words(&["爬山", "我们"])];
    let w = word_freq_of(&texts, &cuts, Some(1), 10);
    assert_eq!(w.overall, vec![("爬山".to_string(), 3), ("天气".to_string(), 1)]);
    assert_eq!(w.mine, vec![("爬山".to_string(), 2), ("天气".to_string(), 1)]);
    assert_eq!(w.theirs, vec![("爬山".to_string(), 1)]);
    let sum = |v: &Vec<(String, i64)>| v.iter().map(|p| p.1).sum::<i64>();
    assert_eq!(sum(&w.mine) + sum(&w.theirs), sum(&w.overall));
}

#[test]
fn equal_words_come_in_their_order() {
    let texts = vec![tm(1, 1, "x")];
    let cuts = vec![words(&["bb", "aa", "cc", "aa"])];
    let w = word_freq_of(&texts, &cuts, Some(1), 2);
    assert_eq!(w.overall, vec![("aa".to_string(), 2), ("bb".to_string(), 1)]);
}

#[test]
fn collected_words_are_those_that_are_kept() {
    let texts = vec![tm(1, 1, "x"), tm(2, 2, "y")];
    let cuts = vec![words(&["爬山", "我们"]), words(&["天气"])];
    assert_eq!(collect_words(&texts, &cuts, Some(1), Some(true)), words(&["爬山"]));
    assert_eq!(collect_words(&texts, &cuts, Some(1), Some(false)), words(&["天气"]));
    assert_eq!(collect_words(&texts, &cuts, Some(1), None), words(&["爬山", "天气"]));
}

#[test]
fn typical_words_are_said_by_one_side() {
    let texts = vec![tm(1, 1, "x"), tm(2, 2, "y")];
    let cuts = vec![words(&["爬山"; 8]), words(&["天气"; 8])];
    let (mine, theirs) = signature_words_of(&texts, &cuts, Some(1), 8);
    assert_eq!(mine, vec![("爬山".to_string(), 8)]);
    assert_eq!(theirs, vec![("天气".to_string(), 8)]);
    // A fifth is too much.
    let mut shared = vec![words(&["爬山"; 10]), words(&["爬山"; 2])];
    assert!(signature_words_of(&texts, &shared, Some(1), 8).0.is_empty());
    shared[1].pop();
    assert_eq!(signature_words_of(&texts, &shared, Some(1), 8).0, vec![("爬山".to_string(), 10)]);
    let (a, b) = signature_words(&texts, Some(1), 8);
    assert!(a.is_empty() && b.is_empty());
}

use feed_rs::integrations::discord::{discord_post, summary_order, summary_posts};
use feed_rs::source::{summary_header, Entry};

fn entry(title: &str, url: &str, pic: &str, score: u64) -> Entry {
    Entry {
        title: title.to_string(),
        url: url.to_string(),
        preview_image_url: pic.to_string(),
        score,
    }
}

#[test]
fn embed_with_name_and_picture() {
    let e = entry("Owls", "https://x.org/owls", "https://x.org/owl.jpg", 1);
    let embed = e.as_discord_post(Some("Nature"));
    assert_eq!(embed.title, "Nature | Owls");
    assert_eq!(embed.url, "https://x.org/owls");
    assert_eq!(embed.image.unwrap().url, "https://x.org/owl.jpg");
}

#[test]
fn embed_without_name_or_picture() {
    let e = entry("Owls", "https://x.org/owls", "", 1);
    let embed = e.as_discord_post(None);
    assert_eq!(embed.title, "Owls");
    assert!(embed.image.is_none());
}

#[test]
fn long_title_is_cut_to_fit() {
    let long = "a".repeat(200);
    let e = entry(&long, "u", "", 1);
    let embed = e.as_discord_post(None);
    assert_eq!(embed.title, format!("{}..", "a".repeat(125)));
    assert!(embed.title.len() <= 128);
}

#[test]
fn title_of_exactly_128_bytes_is_kept() {
    let t = "b".repeat(128);
    let e = entry(&t, "u", "", 1);
    assert_eq!(e.as_discord_post(None).title, t);
    let t2 = "b".repeat(129);
    let e2 = entry(&t2, "u", "", 1);
    assert_eq!(e2.as_discord_post(None).title.len(), 127);
}

#[test]
fn name_counts_toward_the_limit() {
    let t = "c".repeat(120);
    let e = entry(&t, "u", "", 1);
    let title = e.as_discord_post(Some("Source")).title;
    assert_eq!(title, format!("Source | {}..", "c".repeat(116)));
    assert_eq!(title.len(), 127);
}

#[test]
fn discord_post_holds_one_embed() {
    let e = entry("Owls", "https://x.org/owls", "", 1);
    let post = discord_post(&e, "Nature");
    assert_eq!(post.content, "");
    assert_eq!(post.embeds.len(), 1);
    assert_eq!(post.embeds[0].title, "Nature | Owls");
}

#[test]
fn summary_order_ranks_by_score_later_first() {
    let es = vec![entry("a", "1", "", 1), entry("b", "2", "", 3), entry("c", "3", "", 2), entry("d", "4", "", 3)];
    assert_eq!(summary_order(&es), vec![3, 1, 2, 0]);
}

#[test]
fn summary_order_is_a_permutation() {
    let es: Vec<Entry> = (0..9u64).map(|i| entry("t", "u", "", i % 4)).collect();
    let mut order = summary_order(&es);
    order.sort();
    assert_eq!(order, (0..9usize).collect::<Vec<_>>());
}

#[test]
fn summary_posts_come_five_at_a_time() {
    let es: Vec<Entry> = (0..7u64).map(|i| entry(&format!("t{}", i), &format!("u{}", i), "", i)).collect();
    let posts = summary_posts(es, "## head");
    assert_eq!(posts.len(), 2);
    assert_eq!(posts[0].content, "## head");
    assert_eq!(posts[0].embeds.len(), 5);
    assert_eq!(posts[0].embeds[0].title, "t6");
    assert_eq!(posts[0].embeds[4].title, "t2");
    assert_eq!(posts[1].content, "");
    assert_eq!(posts[1].embeds.len(), 2);
    assert_eq!(posts[1].embeds[1].title, "t0");
}

#[test]
fn summary_of_nothing_posts_nothing() {
    assert!(summary_posts(Vec::new(), "## head").is_empty());
}

#[test]
fn summary_of_exactly_five_is_one_post() {
    let es: Vec<Entry> = (0..5u64).map(|i| entry("t", "u", "", i)).collect();
    assert_eq!(summary_posts(es, "h").len(), 1);
}

#[test]
fn summary_header_names_the_subreddit() {
    assert_eq!(summary_header("rust"), "## Top rust articles of the last 24 hours.");
}

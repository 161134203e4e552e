use exercises::closures::{Inventory, ShirtColor};
use exercises::coins::{add_one, function_with_parameters, state_of_quarter, value_in_cents, Coin, MyBox, UsState};
use exercises::generics::{largest, longest, ImportantExcerpt, Pair, Point};
use exercises::gui::{Button, Draw, Screen};
use exercises::ownership::{calculate_length, change, first_word, gives_ownership};
use exercises::summary::{NewsArticle, SocialPost, Summary};
use exercises::text::push_decimal;

#[test]
fn screen_draws_each_button_in_order() {
    let screen = Screen {
        components: vec![
            Button { width: 50, height: 10, label: String::from("OK") },
            Button { width: 0, height: 1234567, label: String::from("Cancel") },
        ],
    };
    assert_eq!(
        screen.run(),
        vec![
            String::from("Drawing a button: OK (50x10)"),
            String::from("Drawing a button: Cancel (0x1234567)"),
        ]
    );
    assert_eq!(Button { width: 7, height: 9, label: String::new() }.draw(), "Drawing a button:  (7x9)");
}

#[test]
fn decimal_digits() {
    let mut s = String::from("n=");
    push_decimal(&mut s, 4294967295);
    assert_eq!(s, "n=4294967295");
}

#[test]
fn summaries() {
    let article = NewsArticle {
        headline: String::from("Penguins win the Stanley Cup Championship!"),
        location: String::from("Pittsburgh, PA, USA"),
        author: String::from("Iceburgh"),
        content: String::from("The Pittsburgh Penguins once again are the top hockey team in the NHL."),
    };
    assert_eq!(
        article.summarize(),
        "Penguins win the Stanley Cup Championship!, by Iceburgh (Pittsburgh, PA, USA)"
    );
    let post = SocialPost {
        username: String::from("horse_ebooks"),
        content: String::from("of course, as you probably already know, people"),
        reply: false,
        repost: false,
    };
    assert_eq!(post.summarize(), "horse_ebooks: of course, as you probably already know, people");
}

#[test]
fn generic_helpers() {
    assert_eq!(largest(&[34, 50, 25, 100, 65]), 100);
    assert_eq!(largest(&[-3]), -3);
    assert_eq!(*Point { x: 5, y: 10 }.x(), 5);
    let p = Pair::new(1, 2);
    assert_eq!((p.x, p.y), (1, 2));
    assert_eq!(longest("abcd", "xyz"), "abcd");
    assert_eq!(longest("ab", "xy"), "xy");
    assert_eq!(ImportantExcerpt { part: "Call me Ishmael" }.level(), 3);
}

#[test]
fn ownership_helpers() {
    let mut s = gives_ownership();
    assert_eq!(s, "hello");
    assert_eq!(calculate_length(&s), 5);
    change(&mut s);
    assert_eq!(s, "hello [changed]");
    assert_eq!(first_word(&s), "hello");
    assert_eq!(first_word("single"), "single");
    assert_eq!(first_word(" lead"), "");
    assert_eq!(calculate_length(&String::from("é")), 2);
}

#[test]
fn shirt_giveaway() {
    let store = Inventory { shirts: vec![ShirtColor::Blue, ShirtColor::Red, ShirtColor::Blue] };
    assert_eq!(store.giveaway(Some(ShirtColor::Red)), ShirtColor::Red);
    assert_eq!(store.giveaway(None), ShirtColor::Blue);
    let reds = Inventory { shirts: vec![ShirtColor::Red, ShirtColor::Red, ShirtColor::Blue] };
    assert_eq!(reds.most_stocked(), ShirtColor::Red);
    let tie = Inventory { shirts: vec![ShirtColor::Red, ShirtColor::Blue] };
    assert_eq!(tie.most_stocked(), ShirtColor::Blue);
    assert_eq!(Inventory { shirts: vec![] }.most_stocked(), ShirtColor::Blue);
}

#[test]
fn coins_and_small_functions() {
    assert_eq!(value_in_cents(Coin::Dime), 10);
    assert_eq!(value_in_cents(Coin::Quarter(UsState::Alaska)), 25);
    assert_eq!(value_in_cents(Coin::Penny) + value_in_cents(Coin::Nickel), 6);
    assert_eq!(state_of_quarter(Coin::Quarter(UsState::Alabama)), Some(UsState::Alabama));
    assert_eq!(state_of_quarter(Coin::Dime), None);
    assert_eq!(*MyBox::new(5).get(), 5);
    assert_eq!(function_with_parameters(5, 6), 11);
    assert_eq!(add_one(5), 6);
}

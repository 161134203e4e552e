use exercises::adder::add_two;
use exercises::restaurant::{add_to_waitlist, Appetizer, Breakfast};
use exercises::shapes::{add, build_user, Guess, Rectangle};

#[test]
fn it_works() {
    let result = add_two(2);
    assert_eq!(result, 4);
}

#[test]
fn test_add() {
    assert_eq!(add(2, 3), 5);
    assert_eq!(add(-1, 1), 0);
    assert_eq!(add(0, 0), 0);
}

#[test]
fn larger_can_hold_smaller() {
    let larger = Rectangle { width: 8, height: 7 };
    let smaller = Rectangle { width: 5, height: 1 };
    assert!(larger.can_hold(&smaller));
}

#[test]
fn smaller_cannot_hold_larger() {
    let larger = Rectangle { width: 8, height: 7 };
    let smaller = Rectangle { width: 5, height: 1 };
    assert!(!smaller.can_hold(&larger), "Smaller rectangle should not be able to hold larger one");
}

#[test]
fn test_guess_valid() {
    let _ = Guess::new(50);
}

#[test]
fn lib_it_works() -> Result<(), String> {
    let result = add(2, 2);
    if result == 4 {
        Ok(())
    } else {
        Err(String::from("two plus two does not equal four"))
    }
}

#[test]
fn guess_keeps_its_value() {
    assert_eq!(Guess::new(1).value(), 1);
    assert_eq!(Guess::new(100).value(), 100);
}

#[test]
fn rectangle_area_and_equal_sides() {
    let r = Rectangle { width: 30, height: 50 };
    assert_eq!(r.area(), 1500);
    assert!(!r.can_hold(&Rectangle { width: 30, height: 10 }));
}

#[test]
fn new_users_are_active() {
    let u = build_user(String::from("someone@example.com"), String::from("someusername123"));
    assert!(u.active);
    assert_eq!(u.sign_in_count, 1);
    assert_eq!(u.email, "someone@example.com");
    assert_eq!(u.username, "someusername123");
}

#[test]
fn summer_breakfast_comes_with_peaches() {
    add_to_waitlist();
    let mut meal = Breakfast::summer("Rye");
    assert_eq!(meal.toast, "Rye");
    meal.toast = String::from("Wheat");
    assert_eq!(meal.toast, "Wheat");
    assert_eq!(meal.seasonal_fruit(), "peaches");
    let starters = [Appetizer::Soup, Appetizer::Salad];
    assert!(matches!(starters[0], Appetizer::Soup));
}

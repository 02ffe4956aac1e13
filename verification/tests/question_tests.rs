use quiz_buzzer::question::{Category, Question};

#[test]
fn every_category_has_its_own_name() {
    let all = [
        (Category::Informatique, "Informatique"),
        (Category::Sciences, "Sciences"),
        (Category::Histoire, "Histoire"),
        (Category::Geographie, "Geographie"),
        (Category::Classique, "Classique"),
        (Category::Moderne, "Moderne"),
        (Category::Generale, "Generale"),
        (Category::Internet, "Internet"),
        (Category::Sport, "Sport"),
    ];
    for (category, name) in all.iter() {
        assert_eq!(category.to_string(), *name);
    }
    for (a, _) in all.iter() {
        for (b, _) in all.iter() {
            assert_eq!(a == b, a.to_string() == b.to_string());
        }
    }
}

#[test]
fn a_question_holds_what_it_was_given() {
    let q = Question {
        id: 4,
        question: "Capitale de la France ?".to_string(),
        answer: "Paris".to_string(),
        category: Category::Geographie,
        notes: None,
        is_public: false,
    };
    assert_eq!(q.category.to_string(), "Geographie");
    assert_eq!(q.answer, "Paris");
}

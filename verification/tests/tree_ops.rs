use shork::tokens::{Token, TokenType};
use shork::tree::{AST, Node};

#[test]
fn tree_ast() {
    let mut ast = AST::new();

    // array is unsorted to test search
    let nodes = [
        Node::new(2, Token::new(TokenType::And, 0, 0, vec![0]), Some(0), vec![4, 5]),
        Node::new(5, Token::new(TokenType::And, 0, 0, vec![0]), Some(2), vec![]),
        Node::new(3, Token::new(TokenType::And, 0, 0, vec![0]), Some(0), vec![4, 5]),
        Node::new(0, Token::new(TokenType::And, 0, 0, vec![0]), None, vec![1, 2, 3]),
        Node::new(1, Token::new(TokenType::And, 0, 0, vec![0]), Some(0), vec![4, 5]),
        Node::new(4, Token::new(TokenType::And, 0, 0, vec![0]), Some(2), vec![]),
    ];

    for n in nodes.clone() {
        ast.add(n)
    }

    let n_by_id = ast.get(4).unwrap();
    assert_eq!(n_by_id, &nodes[5]);

    let n_siblings = ast.siblings(&nodes[1]).unwrap();
    assert_eq!(vec![4, 5], n_siblings)
}

#[test]
fn get_on_a_missing_id_is_a_parser_error() {
    let ast = AST::new();
    let r = ast.get(7);
    assert!(r.is_err());
    assert!(matches!(r.unwrap_err().e_type, shork::errors::ErrorType::ParserError));
}

#[test]
fn siblings_of_a_root_is_an_error() {
    let mut ast = AST::new();
    let root = Node::new(0, Token::new(TokenType::And, 0, 0, vec![]), None, vec![]);
    ast.add(root.clone());
    assert!(ast.siblings(&root).is_err());
}

#[test]
fn set_root_all_reparents_every_root() {
    let mut ast = AST::new();
    ast.add(Node::new(1, Token::new(TokenType::IntegerType, 0, 1, vec![]), None, vec![]));
    ast.add(Node::new(2, Token::new(TokenType::IntegerType, 2, 1, vec![]), None, vec![]));
    ast.add(Node::new(3, Token::new(TokenType::Plus, 1, 1, vec![]), Some(9), vec![]));
    assert_eq!(ast.root(), vec![1, 2]);
    ast.set_root_all(9);
    assert_eq!(ast.root(), Vec::<usize>::new());
    assert_eq!(ast.get(1).unwrap().parent(), Some(9));
    assert_eq!(ast.get(2).unwrap().parent(), Some(9));
    assert_eq!(ast.get(3).unwrap().parent(), Some(9));
}

#[test]
fn clone_into_tree_appends_all_nodes() {
    let mut a = AST::new();
    a.add(Node::new(1, Token::new(TokenType::IntegerType, 0, 1, vec![]), None, vec![]));
    let mut b = AST::new();
    b.add(Node::new(2, Token::new(TokenType::IntegerType, 2, 1, vec![]), None, vec![]));
    a.clone_into_tree(&mut b);
    assert_eq!(b.node_count(), 2);
    assert_eq!(b.root(), vec![2, 1]);
}

#[test]
fn node_accessors_hand_back_what_went_in() {
    let t = Token::new(TokenType::Plus, 4, 1, b"+".to_vec());
    let mut n = Node::new(11, t, None, vec![]);
    assert_eq!(n.id(), 11);
    assert_eq!(n.parent(), None);
    assert_eq!(*n.val().token_type(), TokenType::Plus);
    assert_eq!(n.val().position(), 4);
    n.set_parent(Some(3));
    assert_eq!(n.parent(), Some(3));
    n.add_child(12);
    n.add_child(13);
    assert_eq!(n.children(), &vec![12, 13]);
}

#[test]
fn get_mut_rewrites_in_place() {
    let mut ast = AST::new();
    ast.add(Node::new(5, Token::new(TokenType::And, 0, 0, vec![]), None, vec![]));
    {
        let n = ast.get_mut(5).unwrap();
        n.set_parent(Some(8));
    }
    assert_eq!(ast.get(5).unwrap().parent(), Some(8));
    assert!(ast.get_mut(6).is_err());
}

use biblioteca_storage::{BibliotecaStorage, Genero, Livro};

#[test]
fn test_adicionar_livro() {
    let mut contract = BibliotecaStorage::new();
    let id = contract.adicionar_livro("Livro A".into(), Genero::Ficcao);
    assert_eq!(id, 1);
}

#[test]
fn test_listar_livros() {
    let mut contract = BibliotecaStorage::new();
    contract.adicionar_livro("Livro A".into(), Genero::Ficcao);
    let livros = contract.listar_livros();
    assert_eq!(livros.len(), 1);
    assert_eq!(livros[0].titulo, "Livro A");
}

#[test]
fn test_atualizar_livro() {
    let mut contract = BibliotecaStorage::new();
    let id = contract.adicionar_livro("Antigo".into(), Genero::Ficcao);
    let atualizado = contract.atualizar_livro(id, "Novo".into(), Genero::Romance);
    assert!(atualizado);
    let livros = contract.listar_livros();
    assert_eq!(livros[0].titulo, "Novo");
}

#[test]
fn test_remover_livro() {
    let mut contract = BibliotecaStorage::new();
    let id = contract.adicionar_livro("Livro Removível".into(), Genero::Outro);
    assert_eq!(contract.listar_livros().len(), 1);
    let removido = contract.remover_livro(id);
    assert!(removido);
    assert_eq!(contract.listar_livros().len(), 0);
}

#[test]
fn empty_catalog_lists_nothing() {
    let contract = BibliotecaStorage::new();
    assert!(contract.listar_livros().is_empty());
    assert_eq!(contract.proximo_id(), 1);
}

#[test]
fn add_then_list_gives_the_one_book() {
    let mut contract = BibliotecaStorage::new();
    contract.adicionar_livro("Livro A".into(), Genero::Ficcao);
    let livros = contract.listar_livros();
    assert_eq!(livros.len(), 1);
    assert_eq!(livros[0].id, 1);
    assert_eq!(livros[0].titulo, "Livro A");
    assert_eq!(livros[0].genero, Genero::Ficcao);
}

#[test]
fn add_ids_are_distinct_and_increasing() {
    let mut contract = BibliotecaStorage::new();
    let mut ids = Vec::new();
    for k in 0..20u32 {
        ids.push(contract.adicionar_livro(format!("Livro {}", k), Genero::Poesia));
    }
    for k in 0..ids.len() {
        assert_eq!(ids[k], k as u32 + 1);
        for m in (k + 1)..ids.len() {
            assert!(ids[k] < ids[m]);
        }
    }
    assert_eq!(contract.proximo_id(), 21);
}

#[test]
fn removed_id_is_not_reissued() {
    let mut contract = BibliotecaStorage::new();
    let a = contract.adicionar_livro("A".into(), Genero::Ficcao);
    let b = contract.adicionar_livro("B".into(), Genero::Biografia);
    assert!(contract.remover_livro(b));
    let c = contract.adicionar_livro("C".into(), Genero::Infantil);
    assert_eq!((a, b, c), (1, 2, 3));
    assert!(contract.remover_livro(a));
    assert!(contract.remover_livro(c));
    let d = contract.adicionar_livro("D".into(), Genero::Outro);
    assert_eq!(d, 4);
}

#[test]
fn update_changes_title_and_genre_in_place() {
    let mut contract = BibliotecaStorage::new();
    let id = contract.adicionar_livro("Antigo".into(), Genero::Ficcao);
    assert_eq!(id, 1);
    assert!(contract.atualizar_livro(1, "Novo".into(), Genero::Romance));
    let livros = contract.listar_livros();
    assert_eq!(livros.len(), 1);
    assert_eq!(livros[0].id, 1);
    assert_eq!(livros[0].titulo, "Novo");
    assert_eq!(livros[0].genero, Genero::Romance);
}

#[test]
fn update_of_missing_id_changes_nothing() {
    let mut contract = BibliotecaStorage::new();
    contract.adicionar_livro("Antigo".into(), Genero::Ficcao);
    assert!(!contract.atualizar_livro(999, "Novo".into(), Genero::Romance));
    let livros = contract.listar_livros();
    assert_eq!(livros.len(), 1);
    assert_eq!(livros[0].id, 1);
    assert_eq!(livros[0].titulo, "Antigo");
    assert_eq!(livros[0].genero, Genero::Ficcao);
}

#[test]
fn update_keeps_position_among_others() {
    let mut contract = BibliotecaStorage::new();
    contract.adicionar_livro("A".into(), Genero::Ficcao);
    contract.adicionar_livro("B".into(), Genero::Ficcao);
    contract.adicionar_livro("C".into(), Genero::Ficcao);
    assert!(contract.atualizar_livro(2, "B2".into(), Genero::Poesia));
    let livros = contract.listar_livros();
    let titulos: Vec<&str> = livros.iter().map(|l| l.titulo.as_str()).collect();
    assert_eq!(titulos, vec!["A", "B2", "C"]);
    assert_eq!(livros[1].id, 2);
    assert_eq!(livros[1].genero, Genero::Poesia);
    assert_eq!(livros[0].genero, Genero::Ficcao);
}

#[test]
fn remove_then_remove_again() {
    let mut contract = BibliotecaStorage::new();
    let k = contract.adicionar_livro("Livro".into(), Genero::Biografia);
    assert!(contract.remover_livro(k));
    assert!(contract.listar_livros().is_empty());
    assert!(!contract.remover_livro(k));
    assert!(contract.listar_livros().is_empty());
}

#[test]
fn remove_middle_keeps_order() {
    let mut contract = BibliotecaStorage::new();
    assert_eq!(contract.adicionar_livro("Um".into(), Genero::Ficcao), 1);
    assert_eq!(contract.adicionar_livro("Dois".into(), Genero::Poesia), 2);
    assert_eq!(contract.adicionar_livro("Tres".into(), Genero::Romance), 3);
    assert!(contract.remover_livro(2));
    let livros = contract.listar_livros();
    assert_eq!(livros.len(), 2);
    assert_eq!(livros[0].id, 1);
    assert_eq!(livros[0].titulo, "Um");
    assert_eq!(livros[1].id, 3);
    assert_eq!(livros[1].titulo, "Tres");
}

#[test]
fn remove_of_missing_id_changes_nothing() {
    let mut contract = BibliotecaStorage::new();
    contract.adicionar_livro("Um".into(), Genero::Ficcao);
    assert!(!contract.remover_livro(0));
    assert!(!contract.remover_livro(7));
    assert_eq!(contract.listar_livros().len(), 1);
    assert_eq!(contract.proximo_id(), 2);
}

#[test]
fn checked_add_issues_the_next_id() {
    let mut contract = BibliotecaStorage::new();
    assert_eq!(contract.tentar_adicionar_livro("A".into(), Genero::Ficcao), Some(1));
    assert_eq!(contract.tentar_adicionar_livro("B".into(), Genero::Outro), Some(2));
    assert_eq!(contract.listar_livros().len(), 2);
    assert_eq!(contract.proximo_id(), 3);
}

#[test]
fn listed_copy_is_independent_of_the_catalog() {
    let mut contract = BibliotecaStorage::new();
    contract.adicionar_livro("A".into(), Genero::Ficcao);
    let mut livros = contract.listar_livros();
    livros[0].titulo.push_str("!");
    assert_eq!(contract.listar_livros()[0].titulo, "A");
}

#[test]
fn restore_accepts_a_saved_state() {
    let mut contract = BibliotecaStorage::new();
    contract.adicionar_livro("A".into(), Genero::Ficcao);
    contract.adicionar_livro("B".into(), Genero::Poesia);
    assert!(contract.remover_livro(1));
    let restaurado = BibliotecaStorage::restaurar(contract.listar_livros(), contract.proximo_id());
    let mut restaurado = restaurado.expect("a saved state is valid");
    assert_eq!(restaurado.listar_livros(), contract.listar_livros());
    assert_eq!(restaurado.adicionar_livro("C".into(), Genero::Outro), 3);
}

#[test]
fn restore_refuses_a_broken_state() {
    let livro = |id: u32| Livro { id, titulo: "X".into(), genero: Genero::Outro };
    assert!(BibliotecaStorage::restaurar(Vec::new(), 0).is_none());
    assert!(BibliotecaStorage::restaurar(vec![livro(0)], 5).is_none());
    assert!(BibliotecaStorage::restaurar(vec![livro(5)], 5).is_none());
    assert!(BibliotecaStorage::restaurar(vec![livro(3), livro(2)], 5).is_none());
    assert!(BibliotecaStorage::restaurar(vec![livro(2), livro(2)], 5).is_none());
    assert!(BibliotecaStorage::restaurar(vec![livro(2), livro(4)], 5).is_some());
    assert!(BibliotecaStorage::restaurar(Vec::new(), 1).is_some());
}

#[test]
fn checked_add_refuses_once_ids_run_out() {
    let mut contract = BibliotecaStorage::restaurar(Vec::new(), u32::MAX).expect("valid");
    assert_eq!(contract.tentar_adicionar_livro("A".into(), Genero::Ficcao), None);
    assert!(contract.listar_livros().is_empty());
    assert_eq!(contract.proximo_id(), u32::MAX);
    let mut quase = BibliotecaStorage::restaurar(Vec::new(), u32::MAX - 1).expect("valid");
    assert_eq!(quase.tentar_adicionar_livro("B".into(), Genero::Ficcao), Some(u32::MAX - 1));
    assert_eq!(quase.tentar_adicionar_livro("C".into(), Genero::Ficcao), None);
    assert_eq!(quase.listar_livros().len(), 1);
}

use vstd::prelude::*;

use crate::genero::Genero;

verus! {

/// A book as the catalog keeps it.
#[derive(Clone, Debug, PartialEq, Eq)]
pub struct Livro {
    pub id: u32,
    pub titulo: String,
    pub genero: Genero,
}

/// The mathematical value of a book: its title as characters.
pub struct LivroView {
    pub id: u32,
    pub titulo: Seq<char>,
    pub genero: Genero,
}

impl View for Livro {
    type V = LivroView;

    open spec fn view(&self) -> LivroView {
        LivroView { id: self.id, titulo: self.titulo@, genero: self.genero }
    }
}

/// The mathematical value of a catalog: its books in order of insertion and
/// the identifier that the next book will get.
pub struct CatalogoView {
    pub livros: Seq<LivroView>,
    pub proximo_id: u32,
}

/// Whether some book of `s` has the identifier `id`.
pub open spec fn tem_id(s: Seq<LivroView>, id: u32) -> bool {
    exists|i: int| 0 <= i < s.len() && s[i].id == id
}

/// `s` with every book of identifier `id` given a new title and genre.
pub open spec fn com_alteracao(s: Seq<LivroView>, id: u32, titulo: Seq<char>, genero: Genero) -> Seq<
    LivroView,
> {
    s.map_values(
        |b: LivroView|
            if b.id == id {
                LivroView { id: b.id, titulo: titulo, genero: genero }
            } else {
                b
            },
    )
}

/// `s` without its first book of identifier `id`, the others keeping their order.
pub open spec fn sem_id(s: Seq<LivroView>, id: u32) -> Seq<LivroView>
    decreases s.len(),
{
    if s.len() == 0 {
        s
    } else if s[0].id == id {
        s.drop_first()
    } else {
        seq![s[0]] + sem_id(s.drop_first(), id)
    }
}

/// Removing the first book of identifier `id`, found at `i`, drops index `i`.
proof fn lemma_sem_id_primeiro(s: Seq<LivroView>, id: u32, i: int)
    requires
        0 <= i < s.len(),
        s[i].id == id,
        forall|k: int| 0 <= k < i ==> s[k].id != id,
    ensures
        sem_id(s, id) == s.remove(i),
    decreases i,
{
    if i > 0 {
        lemma_sem_id_primeiro(s.drop_first(), id, i - 1);
        assert(s.remove(i) =~= seq![s[0]] + s.drop_first().remove(i - 1));
    } else {
        assert(s.remove(0) =~= s.drop_first());
    }
}

/// Removing an identifier that no book has changes nothing.
proof fn lemma_sem_id_ausente(s: Seq<LivroView>, id: u32)
    requires
        !tem_id(s, id),
    ensures
        sem_id(s, id) == s,
    decreases s.len(),
{
    if s.len() > 0 {
        assert(s[0].id != id);
        assert(!tem_id(s.drop_first(), id)) by {
            if tem_id(s.drop_first(), id) {
                let k = choose|k: int| 0 <= k < s.drop_first().len() && s.drop_first()[k].id == id;
                assert(s[k + 1].id == id);
            }
        }
        lemma_sem_id_ausente(s.drop_first(), id);
        assert(seq![s[0]] + s.drop_first() =~= s);
    }
}

impl CatalogoView {
    /// The invariant of a catalog: identifiers start at 1, rise strictly along
    /// the order of insertion, and stay below the next identifier.
    pub open spec fn wf(self) -> bool {
        &&& 1 <= self.proximo_id
        &&& forall|i: int| 0 <= i < self.livros.len() ==> 1 <= #[trigger] self.livros[i].id < self.proximo_id
        &&& forall|i: int, j: int|
            0 <= i < j < self.livros.len() ==> self.livros[i].id < self.livros[j].id
    }

    /// Whether one more identifier can be issued.
    pub open spec fn tem_espaco(self) -> bool {
        self.proximo_id < u32::MAX
    }

    /// The catalog after a book is added: it gets the next identifier.
    pub open spec fn adicionar(self, titulo: Seq<char>, genero: Genero) -> CatalogoView {
        CatalogoView {
            livros: self.livros.push(LivroView { id: self.proximo_id, titulo, genero }),
            proximo_id: (self.proximo_id + 1) as u32,
        }
    }

    /// The catalog after the book of identifier `id`, if any, gets a new title and genre.
    pub open spec fn atualizar(self, id: u32, titulo: Seq<char>, genero: Genero) -> CatalogoView {
        CatalogoView {
            livros: com_alteracao(self.livros, id, titulo, genero),
            proximo_id: self.proximo_id,
        }
    }

    /// The catalog after the book of identifier `id`, if any, is removed.
    pub open spec fn remover(self, id: u32) -> CatalogoView {
        CatalogoView { livros: sem_id(self.livros, id), proximo_id: self.proximo_id }
    }
}

/// The value of a catalog that holds `livros` and whose next identifier is `proximo_id`.
pub open spec fn vista_de(livros: Seq<Livro>, proximo_id: u32) -> CatalogoView {
    CatalogoView { livros: livros.map_values(|l: Livro| l@), proximo_id }
}

/// The catalog: books in order of insertion and the identifier counter.
pub struct BibliotecaStorage {
    livros: Vec<Livro>,
    proximo_id: u32,
}

impl View for BibliotecaStorage {
    type V = CatalogoView;

    closed spec fn view(&self) -> CatalogoView {
        vista_de(self.livros@, self.proximo_id)
    }
}

impl BibliotecaStorage {
    /// An empty catalog whose first book will get the identifier 1.
    pub fn new() -> (r: Self)
        ensures
            r@.livros == Seq::<LivroView>::empty(),
            r@.proximo_id == 1,
            r@.wf(),
    {
        let r = BibliotecaStorage { livros: Vec::new(), proximo_id: 1 };
        assert(r@.livros =~= Seq::<LivroView>::empty());
        r
    }

    /// Rebuilds a catalog from its persisted state: the books in order of
    /// insertion and the next identifier. Refuses (`None`) a state that breaks
    /// the catalog's invariant.
    pub fn restaurar(livros: Vec<Livro>, proximo_id: u32) -> (r: Option<Self>)
        ensures
            r is Some <==> vista_de(livros@, proximo_id).wf(),
            r matches Some(c) ==> c@ == vista_de(livros@, proximo_id),
    {
        let ghost alvo = vista_de(livros@, proximo_id);
        if proximo_id < 1 {
            return None;
        }
        let mut i: usize = 0;
        while i < livros.len()
            invariant
                i <= livros.len(),
                alvo == vista_de(livros@, proximo_id),
                alvo.livros.len() == livros@.len(),
                forall|k: int| 0 <= k < livros@.len() ==> #[trigger] alvo.livros[k] == livros@[k]@,
                alvo.proximo_id == proximo_id,
                1 <= proximo_id,
                forall|k: int| 0 <= k < i ==> 1 <= #[trigger] alvo.livros[k].id < proximo_id,
                forall|k: int, m: int| 0 <= k < m < i ==> alvo.livros[k].id < alvo.livros[m].id,
            decreases livros.len() - i,
        {
            let id = livros[i].id;
            assert(alvo.livros[i as int] == livros@[i as int]@);
            if id < 1 || id >= proximo_id {
                assert(!(1 <= alvo.livros[i as int].id < alvo.proximo_id));
                return None;
            }
            if i > 0 && livros[i - 1].id >= id {
                assert(alvo.livros[i - 1] == livros@[i - 1]@);
                assert(!(alvo.livros[i - 1].id < alvo.livros[i as int].id));
                return None;
            }
            proof {
                if i > 0 {
                    assert(alvo.livros[i - 1] == livros@[i - 1]@);
                    assert forall|k: int| 0 <= k < i implies alvo.livros[k].id < id by {
                        if k < i - 1 {
                            assert(alvo.livros[k].id < alvo.livros[i - 1].id);
                        }
                    }
                }
            }
            i = i + 1;
        }
        let c = BibliotecaStorage { livros, proximo_id };
        assert(c@ == alvo);
        Some(c)
    }

    /// Adds a book at the end and returns the identifier it got.
    pub fn adicionar_livro(&mut self, titulo: String, genero: Genero) -> (id: u32)
        requires
            old(self)@.wf(),
            old(self)@.tem_espaco(),
        ensures
            id == old(self)@.proximo_id,
            final(self)@ == old(self)@.adicionar(titulo@, genero),
            final(self)@.wf(),
    {
        let ghost antes = self@;
        let livro = Livro { id: self.proximo_id, titulo, genero };
        self.livros.push(livro);
        let id_atual = self.proximo_id;
        self.proximo_id = self.proximo_id.saturating_add(1);
        assert(self@.livros =~= antes.livros.push(livro@));
        id_atual
    }

    /// Adds a book as `adicionar_livro` does, unless the identifiers have run
    /// out (the next one would be `u32::MAX`): then it returns `None` and the
    /// catalog is unchanged, so that no identifier is ever issued twice.
    pub fn tentar_adicionar_livro(&mut self, titulo: String, genero: Genero) -> (r: Option<u32>)
        requires
            old(self)@.wf(),
        ensures
            r is Some <==> old(self)@.tem_espaco(),
            r matches Some(id) ==> id == old(self)@.proximo_id && final(self)@ == old(self)@.adicionar(
                titulo@,
                genero,
            ),
            r is None ==> final(self)@ == old(self)@,
            final(self)@.wf(),
    {
        if self.proximo_id < u32::MAX {
            Some(self.adicionar_livro(titulo, genero))
        } else {
            None
        }
    }

    /// A copy of every book, in order of insertion.
    pub fn listar_livros(&self) -> (r: Vec<Livro>)
        ensures
            r@.len() == self@.livros.len(),
            forall|i: int| 0 <= i < r@.len() ==> #[trigger] r@[i]@ == self@.livros[i],
    {
        let mut r: Vec<Livro> = Vec::new();
        let mut i: usize = 0;
        while i < self.livros.len()
            invariant
                i <= self.livros.len(),
                r@.len() == i,
                forall|k: int| 0 <= k < i ==> #[trigger] r@[k]@ == self.livros@[k]@,
            decreases self.livros.len() - i,
        {
            let l = &self.livros[i];
            r.push(Livro { id: l.id, titulo: l.titulo.clone(), genero: l.genero });
            i = i + 1;
        }
        r
    }

    /// Gives the book of identifier `id` a new title and genre, keeping its
    /// place; returns whether there was such a book.
    pub fn atualizar_livro(&mut self, id: u32, novo_titulo: String, novo_genero: Genero) -> (found: bool)
        requires
            old(self)@.wf(),
        ensures
            found == tem_id(old(self)@.livros, id),
            final(self)@ == old(self)@.atualizar(id, novo_titulo@, novo_genero),
            !found ==> final(self)@ == old(self)@,
            final(self)@.wf(),
    {
        let ghost antes = self@;
        let mut i: usize = 0;
        while i < self.livros.len()
            invariant
                i <= self.livros.len(),
                self@ == antes,
                antes == old(self)@,
                antes.wf(),
                forall|k: int| 0 <= k < i ==> antes.livros[k].id != id,
            decreases self.livros.len() - i,
        {
            assert(antes.livros[i as int] == self.livros@[i as int]@);
            if self.livros[i].id == id {
                let livro = Livro { id, titulo: novo_titulo, genero: novo_genero };
                self.livros.set(i, livro);
                proof {
                    assert(antes.livros[i as int].id == id);
                    assert(self@.livros =~= com_alteracao(antes.livros, id, novo_titulo@, novo_genero));
                }
                return true;
            }
            i = i + 1;
        }
        assert(com_alteracao(antes.livros, id, novo_titulo@, novo_genero) =~= antes.livros);
        false
    }

    /// Removes the book of identifier `id`, the others keeping their order;
    /// returns whether there was such a book.
    pub fn remover_livro(&mut self, id: u32) -> (found: bool)
        requires
            old(self)@.wf(),
        ensures
            found == tem_id(old(self)@.livros, id),
            final(self)@ == old(self)@.remover(id),
            !found ==> final(self)@ == old(self)@,
            final(self)@.wf(),
    {
        let ghost antes = self@;
        let mut i: usize = 0;
        while i < self.livros.len()
            invariant
                i <= self.livros.len(),
                self@ == antes,
                antes == old(self)@,
                antes.wf(),
                forall|k: int| 0 <= k < i ==> antes.livros[k].id != id,
            decreases self.livros.len() - i,
        {
            assert(antes.livros[i as int] == self.livros@[i as int]@);
            if self.livros[i].id == id {
                self.livros.remove(i);
                proof {
                    lemma_sem_id_primeiro(antes.livros, id, i as int);
                    assert(self@.livros =~= antes.livros.remove(i as int));
                    assert(antes.livros[i as int].id == id);
                }
                return true;
            }
            i = i + 1;
        }
        proof {
            lemma_sem_id_ausente(antes.livros, id);
        }
        false
    }

    /// The identifier that the next book will get.
    pub fn proximo_id(&self) -> (r: u32)
        ensures
            r == self@.proximo_id,
    {
        self.proximo_id
    }
}

/// The identifiers that a run of additions to `c` hands out, one per entry of
/// `novos` (a title and a genre each), in the order of the calls.
pub open spec fn ids_emitidos(c: CatalogoView, novos: Seq<(Seq<char>, Genero)>) -> Seq<u32>
    decreases novos.len(),
{
    if novos.len() == 0 {
        Seq::empty()
    } else {
        seq![c.proximo_id] + ids_emitidos(c.adicionar(novos[0].0, novos[0].1), novos.drop_first())
    }
}

/// The catalog after a run of additions.
pub open spec fn adicionar_todos(c: CatalogoView, novos: Seq<(Seq<char>, Genero)>) -> CatalogoView
    decreases novos.len(),
{
    if novos.len() == 0 {
        c
    } else {
        adicionar_todos(c.adicionar(novos[0].0, novos[0].1), novos.drop_first())
    }
}

/// Adding a book keeps the catalog's invariant.
pub proof fn lemma_adicionar_wf(c: CatalogoView, titulo: Seq<char>, genero: Genero)
    requires
        c.wf(),
        c.tem_espaco(),
    ensures
        c.adicionar(titulo, genero).wf(),
{
    let d = c.adicionar(titulo, genero);
    assert forall|i: int| 0 <= i < d.livros.len() implies 1 <= #[trigger] d.livros[i].id < d.proximo_id by {
        if i < c.livros.len() {
            assert(d.livros[i] == c.livros[i]);
        }
    }
    assert forall|i: int, j: int| 0 <= i < j < d.livros.len() implies d.livros[i].id < d.livros[j].id by {
        assert(d.livros[i] == c.livros[i]);
        assert(c.livros[i].id < c.proximo_id);
    }
}

/// A run of additions, with room for all of its identifiers, hands out the
/// identifiers from the catalog's next one upward, one apart: so they are
/// pairwise distinct, strictly increasing, and new to the catalog (above every
/// identifier it ever issued, the removed ones included). The catalog keeps its
/// invariant throughout.
pub proof fn lemma_ids_unicos(c: CatalogoView, novos: Seq<(Seq<char>, Genero)>)
    requires
        c.wf(),
        c.proximo_id + novos.len() <= u32::MAX,
    ensures
        ids_emitidos(c, novos).len() == novos.len(),
        forall|k: int| 0 <= k < novos.len() ==> #[trigger] ids_emitidos(c, novos)[k] == c.proximo_id + k,
        forall|k: int, m: int|
            0 <= k < m < novos.len() ==> ids_emitidos(c, novos)[k] < ids_emitidos(c, novos)[m],
        forall|k: int, m: int|
            0 <= k < novos.len() && 0 <= m < novos.len() && k != m ==> ids_emitidos(c, novos)[k]
                != ids_emitidos(c, novos)[m],
        forall|k: int, i: int|
            0 <= k < novos.len() && 0 <= i < c.livros.len() ==> (#[trigger] c.livros[i]).id
                < #[trigger] ids_emitidos(c, novos)[k],
        adicionar_todos(c, novos).wf(),
        adicionar_todos(c, novos).proximo_id == c.proximo_id + novos.len(),
    decreases novos.len(),
{
    if novos.len() > 0 {
        let d = c.adicionar(novos[0].0, novos[0].1);
        lemma_adicionar_wf(c, novos[0].0, novos[0].1);
        lemma_ids_unicos(d, novos.drop_first());
        let ids = ids_emitidos(c, novos);
        let resto = ids_emitidos(d, novos.drop_first());
        assert forall|k: int| 0 <= k < novos.len() implies #[trigger] ids[k] == c.proximo_id + k by {
            if k > 0 {
                assert(ids[k] == resto[k - 1]);
            }
        }
        assert forall|k: int, i: int|
            0 <= k < novos.len() && 0 <= i < c.livros.len() implies (#[trigger] c.livros[i]).id
                < #[trigger] ids[k] by {
            assert(ids[k] == c.proximo_id + k);
            assert(c.livros[i].id < c.proximo_id);
        }
    }
}

/// Removing a book never lets its identifier be handed out again: every
/// identifier that later additions issue is above it, and no operation lowers
/// the next identifier.
pub proof fn lemma_remocao_nao_reemite(
    c: CatalogoView,
    id: u32,
    novos: Seq<(Seq<char>, Genero)>,
)
    requires
        c.wf(),
        tem_id(c.livros, id),
        c.proximo_id + novos.len() <= u32::MAX,
    ensures
        c.remover(id).proximo_id == c.proximo_id,
        forall|k: int| 0 <= k < novos.len() ==> id < #[trigger] ids_emitidos(c.remover(id), novos)[k],
{
    let i = choose|i: int| 0 <= i < c.livros.len() && c.livros[i].id == id;
    assert(c.livros[i].id < c.proximo_id);
    lemma_remover_wf(c, id);
    lemma_ids_unicos(c.remover(id), novos);
}

/// Removing a book keeps the catalog's invariant; when the book is there, its
/// one position is dropped and the rest keep their order.
pub proof fn lemma_remover_wf(c: CatalogoView, id: u32)
    requires
        c.wf(),
    ensures
        c.remover(id).wf(),
        tem_id(c.livros, id) ==> exists|i: int|
            0 <= i < c.livros.len() && c.livros[i].id == id && #[trigger] c.livros.remove(i)
                == c.remover(id).livros,
        !tem_id(c.livros, id) ==> c.remover(id) == c,
{
    if tem_id(c.livros, id) {
        let i = choose|i: int| 0 <= i < c.livros.len() && c.livros[i].id == id;
        assert forall|k: int| 0 <= k < i implies c.livros[k].id != id by {
            assert(c.livros[k].id < c.livros[i].id);
        }
        lemma_sem_id_primeiro(c.livros, id, i);
        let d = c.remover(id);
        assert forall|a: int| 0 <= a < d.livros.len() implies 1 <= #[trigger] d.livros[a].id < d.proximo_id by {
            if a < i {
                assert(d.livros[a] == c.livros[a]);
            } else {
                assert(d.livros[a] == c.livros[a + 1]);
            }
        }
        assert forall|a: int, b: int| 0 <= a < b < d.livros.len() implies d.livros[a].id < d.livros[b].id by {
            let a2 = if a < i { a } else { a + 1 };
            let b2 = if b < i { b } else { b + 1 };
            assert(d.livros[a] == c.livros[a2]);
            assert(d.livros[b] == c.livros[b2]);
        }
    } else {
        lemma_sem_id_ausente(c.livros, id);
    }
}

} // verus!

use vstd::prelude::*;
use crate::handle::VersionedIndex;
use crate::registry::Registry;
use crate::store::lists_keys_in_order;

verus! {

/// Why a renderer could not be set up.
#[derive(Clone, Copy, Debug, PartialEq, Eq, Structural)]
pub enum RendererError {
    /// No live resource has the camera's name.
    CameraNotLoaded,
    /// No live resource has the shader's name.
    ShaderNotLoaded,
}

/// Draws sprites through a camera and a shader, both resources found by name.
#[derive(Clone, Copy, Debug, PartialEq, Eq, Structural)]
pub struct Renderer2D {
    pub camera: VersionedIndex,
    pub shader: VersionedIndex,
}

proof fn lemma_push_contains(s: Seq<VersionedIndex>, x: VersionedIndex)
    ensures
        forall|y: VersionedIndex| #[trigger] s.push(x).contains(y) <==> (s.contains(y) || y == x),
{
    assert forall|y: VersionedIndex| #[trigger] s.push(x).contains(y) <==> (s.contains(y) || y == x) by {
        if s.push(x).contains(y) {
            let a = choose|a: int| 0 <= a < s.push(x).len() && s.push(x)[a] == y;
            if a < s.len() {
                assert(s[a] == y);
            }
        }
        if s.contains(y) {
            let a = choose|a: int| 0 <= a < s.len() && s[a] == y;
            assert(s.push(x)[a] == y);
        }
        if y == x {
            assert(s.push(x)[s.len() as int] == y);
        }
    }
}

impl Renderer2D {
    /// Looks up the camera, then the shader, by name.
    pub fn new<C, R>(registry: &Registry<C, R>, camera: &str, shader: &str) -> (r: Result<Renderer2D, RendererError>)
        ensures
            match registry.resources.named(camera@) {
                None => r == Err::<Renderer2D, RendererError>(RendererError::CameraNotLoaded),
                Some(c) => match registry.resources.named(shader@) {
                    None => r == Err::<Renderer2D, RendererError>(RendererError::ShaderNotLoaded),
                    Some(s) => r == Ok::<Renderer2D, RendererError>(Renderer2D { camera: c, shader: s }),
                },
            },
    {
        let camera = match registry.get_resource_id(camera) {
            Some(c) => c,
            None => return Err(RendererError::CameraNotLoaded),
        };
        let shader = match registry.get_resource_id(shader) {
            Some(s) => s,
            None => return Err(RendererError::ShaderNotLoaded),
        };
        Ok(Renderer2D { camera, shader })
    }

    /// The sprites to draw this tick: each entity with a sprite and a
    /// transform, in index order; nothing when the shader or the camera is
    /// not loaded.
    pub fn draw_list<C, R>(&self, registry: &Registry<C, R>, sprite: u64, transform: u64) -> (r: Option<Vec<VersionedIndex>>)
        requires
            registry.wf(),
        ensures
            r is None <==> !registry.resources.values().contains_key(self.shader)
                || !registry.resources.values().contains_key(self.camera),
            r is Some ==> lists_keys_in_order(
                r->Some_0@,
                registry.entities.rows(sprite).restrict(registry.entities.rows(transform).dom()),
            ),
    {
        if registry.get_resource(self.shader).is_none() {
            return None;
        }
        if registry.get_resource(self.camera).is_none() {
            return None;
        }
        let q = registry.entities.query_all(sprite);
        let ghost target = registry.entities.rows(sprite).restrict(registry.entities.rows(transform).dom());
        let mut out: Vec<VersionedIndex> = Vec::new();
        let mut i: usize = 0;
        while i < q.len()
            invariant
                registry.wf(),
                target == registry.entities.rows(sprite).restrict(registry.entities.rows(transform).dom()),
                lists_keys_in_order(q@, registry.entities.rows(sprite)),
                i <= q@.len(),
                forall|a: int| #![trigger out@[a]] 0 <= a < out@.len() ==> exists|c: int| 0 <= c < i && #[trigger] q@[c] == out@[a],
                forall|a: int, b: int| 0 <= a < b < out@.len() ==> out@[a].index < out@[b].index,
                forall|h: VersionedIndex| out@.contains(h) <==> (exists|c: int| 0 <= c < i && q@[c] == h) && target.contains_key(h),
            decreases q@.len() - i,
        {
            let h = q[i];
            if registry.entities.get_component(transform, h).is_some() {
                proof {
                    if out@.len() > 0 {
                        let c = choose|c: int| 0 <= c < i && #[trigger] q@[c] == out@[out@.len() - 1];
                        assert(q@[c].index < q@[i as int].index);
                    }
                    assert(q@.contains(h));
                }
                let ghost before = out@;
                out.push(h);
                proof {
                    lemma_push_contains(before, h);
                    assert(target.contains_key(h));
                    assert forall|a: int| #![trigger out@[a]] 0 <= a < out@.len() implies exists|c: int| 0 <= c < i + 1 && #[trigger] q@[c] == out@[a] by {
                        if a == out@.len() - 1 {
                            assert(q@[i as int] == out@[a]);
                        } else {
                            assert(out@[a] == before[a]);
                        }
                    }
                    assert forall|x: VersionedIndex| out@.contains(x) <==> (exists|c: int| 0 <= c < i + 1 && q@[c] == x) && target.contains_key(x) by {
                        if exists|c: int| 0 <= c < i + 1 && q@[c] == x {
                            let c = choose|c: int| 0 <= c < i + 1 && q@[c] == x;
                            if c < i {
                                assert(exists|c: int| 0 <= c < i && q@[c] == x);
                            }
                        }
                        if exists|c: int| 0 <= c < i && q@[c] == x {
                            let c = choose|c: int| 0 <= c < i && q@[c] == x;
                            assert(exists|c: int| 0 <= c < i + 1 && q@[c] == x);
                        }
                        if x == h {
                            assert(q@[i as int] == x);
                        }
                    }
                }
            } else {
                proof {
                    assert forall|x: VersionedIndex| out@.contains(x) <==> (exists|c: int| 0 <= c < i + 1 && q@[c] == x) && target.contains_key(x) by {
                        if (exists|c: int| 0 <= c < i + 1 && q@[c] == x) && target.contains_key(x) {
                            let c = choose|c: int| 0 <= c < i + 1 && q@[c] == x;
                            if c == i {
                                assert(!target.contains_key(h));
                            }
                        }
                    }
                }
            }
            i = i + 1;
        }
        proof {
            assert forall|x: VersionedIndex| out@.contains(x) <==> target.contains_key(x) by {
                if target.contains_key(x) {
                    assert(q@.contains(x));
                    let c = choose|c: int| 0 <= c < q@.len() && q@[c] == x;
                }
            }
            assert forall|a: int, b: int| 0 <= a < out@.len() && 0 <= b < out@.len() && a != b implies out@[a] != out@[b] by {
                if a < b {
                    assert(out@[a].index < out@[b].index);
                } else {
                    assert(out@[b].index < out@[a].index);
                }
            }
        }
        Some(out)
    }
}

} // verus!

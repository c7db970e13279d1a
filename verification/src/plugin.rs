//! Dependency declarations of plugins.

use vstd::prelude::*;

use crate::json::Json;

verus! {

/// A declared service dependency: the service name plus an optional
/// intercept config for that service.
pub struct Injection {
    pub service: String,
    /// Intercept config for this dependency.
    pub config: Option<Json>,
}

/// What an [`Injection`] declares.
pub struct InjectionView {
    pub service: Seq<char>,
    pub config: Option<Json>,
}

impl View for Injection {
    type V = InjectionView;

    open spec fn view(&self) -> InjectionView {
        InjectionView { service: self.service@, config: self.config }
    }
}

/// A dependency on `service` without an intercept config.
pub open spec fn plain_injection(service: Seq<char>) -> InjectionView {
    InjectionView { service, config: None }
}

/// What a list of declarations declares.
pub open spec fn injections_view(list: Seq<Injection>) -> Seq<InjectionView> {
    list.map_values(|i: Injection| i@)
}

/// The service names of a list of declarations, in order.
pub open spec fn service_names(list: Seq<Injection>) -> Seq<Seq<char>> {
    list.map_values(|i: Injection| i.service@)
}

/// The names of the services that these declarations require, in order.
pub open spec fn required_names(list: Seq<InjectionView>) -> Seq<Seq<char>> {
    list.map_values(|i: InjectionView| i.service)
}

impl Injection {
    pub fn new(service: &str) -> (res: Injection)
        ensures
            res@ == plain_injection(service@),
            res.service@ == service@,
            res.config is None,
    {
        Injection { service: service.to_owned(), config: None }
    }

    pub fn with_config(service: &str, config: Json) -> (res: Injection)
        ensures
            res@ == (InjectionView { service: service@, config: Some(config) }),
    {
        Injection { service: service.to_owned(), config: Some(config) }
    }
}

impl Clone for Injection {
    fn clone(&self) -> (res: Injection)
        ensures
            res == *self,
    {
        let config: Option<Json> = match &self.config {
            Some(value) => Some(value.clone()),
            None => None,
        };
        Injection { service: self.service.clone(), config }
    }
}

/// Flexible dependency-list declarations: strings are the common case,
/// `Injection` adds intercepts.
pub trait IntoInjections: Sized {
    /// The declarations that this value stands for.
    spec fn declares(self) -> Seq<InjectionView>;

    fn into_injections(self) -> (res: Vec<Injection>)
        ensures
            injections_view(res@) == self.declares(),
    ;
}

impl IntoInjections for Vec<Injection> {
    open spec fn declares(self) -> Seq<InjectionView> {
        injections_view(self@)
    }

    fn into_injections(self) -> (res: Vec<Injection>)
        ensures
            res@ == self@,
    {
        self
    }
}

impl IntoInjections for Injection {
    open spec fn declares(self) -> Seq<InjectionView> {
        seq![self@]
    }

    fn into_injections(self) -> (res: Vec<Injection>)
        ensures
            res@ == seq![self],
    {
        let ghost me = self@;
        let mut res: Vec<Injection> = Vec::new();
        res.push(self);
        assert(injections_view(res@) =~= seq![me]);
        res
    }
}

impl IntoInjections for &[&str] {
    open spec fn declares(self) -> Seq<InjectionView> {
        self@.map_values(|name: &str| plain_injection(name@))
    }

    fn into_injections(self) -> (res: Vec<Injection>)
        ensures
            res@.len() == self@.len(),
            forall|j: int|
                0 <= j < self@.len() ==> (#[trigger] res@[j]).service@ == self@[j]@
                    && res@[j].config is None,
    {
        let mut res: Vec<Injection> = Vec::new();
        let mut i: usize = 0;
        while i < self.len()
            invariant
                i <= self@.len(),
                injections_view(res@) == self.declares().take(i as int),
                res@.len() == i,
                forall|j: int|
                    0 <= j < i ==> (#[trigger] res@[j]).service@ == self@[j]@ && res@[j].config
                        is None,
            decreases self@.len() - i,
        {
            let ghost before = res@;
            res.push(Injection::new(self[i]));
            proof {
                let declared = self.declares();
                assert(res@ =~= before.push(res@.last()));
                assert(injections_view(res@) =~= injections_view(before).push(res@.last()@));
                assert(declared[i as int] == plain_injection(self@[i as int]@));
                assert(declared.take(i + 1) =~= declared.take(i as int).push(declared[i as int]));
            }
            i = i + 1;
        }
        assert(self.declares().take(self@.len() as int) =~= self.declares());
        res
    }
}

impl IntoInjections for Vec<&str> {
    open spec fn declares(self) -> Seq<InjectionView> {
        self@.map_values(|name: &str| plain_injection(name@))
    }

    fn into_injections(self) -> (res: Vec<Injection>)
        ensures
            res@.len() == self@.len(),
            forall|j: int|
                0 <= j < self@.len() ==> (#[trigger] res@[j]).service@ == self@[j]@
                    && res@[j].config is None,
    {
        self.as_slice().into_injections()
    }
}

impl IntoInjections for &[String] {
    open spec fn declares(self) -> Seq<InjectionView> {
        self@.map_values(|name: String| plain_injection(name@))
    }

    fn into_injections(self) -> (res: Vec<Injection>)
        ensures
            res@.len() == self@.len(),
            forall|j: int|
                0 <= j < self@.len() ==> (#[trigger] res@[j]).service@ == self@[j]@
                    && res@[j].config is None,
    {
        let mut res: Vec<Injection> = Vec::new();
        let mut i: usize = 0;
        while i < self.len()
            invariant
                i <= self@.len(),
                injections_view(res@) == self.declares().take(i as int),
                res@.len() == i,
                forall|j: int|
                    0 <= j < i ==> (#[trigger] res@[j]).service@ == self@[j]@ && res@[j].config
                        is None,
            decreases self@.len() - i,
        {
            let ghost before = res@;
            res.push(Injection::new(self[i].as_str()));
            proof {
                let declared = self.declares();
                assert(res@ =~= before.push(res@.last()));
                assert(injections_view(res@) =~= injections_view(before).push(res@.last()@));
                assert(declared[i as int] == plain_injection(self@[i as int]@));
                assert(declared.take(i + 1) =~= declared.take(i as int).push(declared[i as int]));
            }
            i = i + 1;
        }
        assert(self.declares().take(self@.len() as int) =~= self.declares());
        res
    }
}

impl IntoInjections for Vec<String> {
    open spec fn declares(self) -> Seq<InjectionView> {
        self@.map_values(|name: String| plain_injection(name@))
    }

    fn into_injections(self) -> (res: Vec<Injection>)
        ensures
            res@.len() == self@.len(),
            forall|j: int|
                0 <= j < self@.len() ==> (#[trigger] res@[j]).service@ == self@[j]@
                    && res@[j].config is None,
    {
        self.as_slice().into_injections()
    }
}

impl<const N: usize> IntoInjections for [&str; N] {
    open spec fn declares(self) -> Seq<InjectionView> {
        self@.map_values(|name: &str| plain_injection(name@))
    }

    fn into_injections(self) -> (res: Vec<Injection>)
        ensures
            res@.len() == self@.len(),
            forall|j: int|
                0 <= j < self@.len() ==> (#[trigger] res@[j]).service@ == self@[j]@
                    && res@[j].config is None,
    {
        self.as_slice().into_injections()
    }
}

/// Normalize inject declarations: whatever the shape, one list in order.
pub fn normalize_inject<I: IntoInjections>(inject: I) -> (res: Vec<Injection>)
    ensures
        injections_view(res@) == inject.declares(),
{
    inject.into_injections()
}

/// Whether a list of declarations names `service`.
pub fn declares_service(list: &Vec<Injection>, service: &str) -> (res: bool)
    ensures
        res == service_names(list@).contains(service@),
        res <==> exists|j: int|
            0 <= j < list@.len() && (#[trigger] list@[j]).service@ == service@,
{
    let key: String = service.to_owned();
    let ghost names = service_names(list@);
    let mut i: usize = 0;
    while i < list.len()
        invariant
            i <= list@.len(),
            key@ == service@,
            names == service_names(list@),
            forall|j: int| 0 <= j < i ==> #[trigger] names[j] != service@,
        decreases list@.len() - i,
    {
        assert(names[i as int] == list@[i as int].service@);
        if list[i].service == key {
            return true;
        }
        i = i + 1;
    }
    assert forall|j: int| 0 <= j < list@.len() implies (#[trigger] list@[j]).service@
        != service@ by {
        assert(names[j] == list@[j].service@);
    }
    false
}

} // verus!

//! The page that a report is embedded in.

use vstd::prelude::*;

verus! {

/// The text in the page that stands for the data of a report.
pub const PLACEHOLDER: &'static str = "__rozy_REPORT_JSON__";

/// A page that needs nothing but itself: a sunburst, a searchable table of symbols, groupings by
/// source, crate and section, filters by kind of memory, and exports as JSON and CSV.
pub const TEMPLATE: &'static str = r##"<!doctype html>
<html lang="en">
<head>
<meta charset="utf-8">
<meta name="viewport" content="width=device-width,initial-scale=1">
<title>Size report</title>
<style>
:root{color-scheme:light dark;--fg:#1d2430;--bg:#f6f7f9;--card:#fff;--line:#d8dde5;--muted:#677182}
@media (prefers-color-scheme:dark){:root{--fg:#e6e9ef;--bg:#14171c;--card:#1c2027;--line:#313844;--muted:#98a2b3}}
*{box-sizing:border-box}
body{margin:0;font:14px/1.45 system-ui,sans-serif;color:var(--fg);background:var(--bg)}
header{padding:18px 24px;border-bottom:1px solid var(--line)}
h1{margin:0;font-size:20px}
#facts{color:var(--muted)}
main{display:grid;grid-template-columns:minmax(320px,480px) 1fr;gap:18px;padding:18px 24px}
@media (max-width:900px){main{grid-template-columns:1fr}}
.card{background:var(--card);border:1px solid var(--line);border-radius:10px;padding:14px}
.cards{display:flex;flex-wrap:wrap;gap:10px;margin-top:12px}
.cards div{border:1px solid var(--line);border-radius:8px;padding:6px 12px}
.cards b{display:block;font-size:16px}
.bar{display:flex;flex-wrap:wrap;gap:10px;align-items:center;margin-bottom:10px}
input[type=search]{flex:1;min-width:160px}
input,select,button{font:inherit;color:inherit;background:var(--bg);border:1px solid var(--line);border-radius:6px;padding:4px 8px}
svg{display:block;width:100%;height:auto}
path{stroke:var(--card);stroke-width:1;cursor:pointer}
table{width:100%;border-collapse:collapse}
th,td{text-align:left;padding:3px 8px;border-bottom:1px solid var(--line);vertical-align:top}
td.num,th.num{text-align:right;font-variant-numeric:tabular-nums;white-space:nowrap}
td.name{word-break:break-all}
tr.synthetic{color:var(--muted)}
#crumbs{color:var(--muted);margin:6px 0}
</style>
</head>
<body>
<header>
<h1 id="title"></h1>
<div id="facts"></div>
<div class="cards" id="totals"></div>
</header>
<main>
<section class="card">
<div class="bar">
<label>Group by
<select id="group">
<option value="source">Source paths</option>
<option value="crate">Rust crates</option>
<option value="section">ELF sections</option>
</select></label>
<button id="up" type="button">Up</button>
</div>
<div id="crumbs"></div>
<svg id="burst" viewBox="-210 -210 420 420"></svg>
</section>
<section class="card">
<div class="bar">
<input id="search" type="search" placeholder="Search names, paths and crates">
<label><input type="checkbox" id="text" checked> Text</label>
<label><input type="checkbox" id="data" checked> Data</label>
<label><input type="checkbox" id="bss" checked> BSS</label>
<button id="json" type="button">JSON</button>
<button id="csv" type="button">CSV</button>
</div>
<table>
<thead><tr><th>Symbol</th><th>Crate</th><th>Where</th><th>Memory</th><th class="num">Address</th><th class="num">Bytes</th></tr></thead>
<tbody id="rows"></tbody>
<tfoot><tr><th colspan="5">Total</th><th class="num" id="tableTotal"></th></tr></tfoot>
</table>
</section>
</main>
<script>
const REPORT = __rozy_REPORT_JSON__;
const $=id=>document.getElementById(id);
const number=n=>n.toLocaleString("en");
let focus=[];

function keyOf(s){
  const mode=$("group").value;
  if(mode==="crate")return [s.crate_name||"[no crate]"].concat(s.path);
  if(mode==="section")return [s.section];
  return s.path;
}

function visible(){
  const words=$("search").value.toLowerCase().split(/\s+/).filter(w=>w);
  return REPORT.symbols.filter(s=>{
    if(!$(s.memory).checked)return false;
    const key=keyOf(s);
    if(!focus.every((part,i)=>key[i]===part))return false;
    const hay=[s.name,s.section,s.crate_name||"",s.source||"",s.path.join("/")].join(" ").toLowerCase();
    return words.every(w=>hay.indexOf(w)>=0);
  });
}

function tree(list){
  const root={name:"",size:0,children:new Map()};
  for(const s of list){
    let node=root;
    node.size+=s.size;
    for(const part of keyOf(s).slice(focus.length).concat([s.name])){
      if(!node.children.has(part))node.children.set(part,{name:part,size:0,children:new Map()});
      node=node.children.get(part);
      node.size+=s.size;
    }
  }
  return root;
}

function ring(from,to,inner,outer){
  const at=(angle,radius)=>(radius*Math.sin(angle)).toFixed(2)+" "+(-radius*Math.cos(angle)).toFixed(2);
  const end=to-from>=2*Math.PI?from+2*Math.PI-0.0001:to;
  const large=end-from>Math.PI?1:0;
  return "M"+at(from,outer)+"A"+outer+" "+outer+" 0 "+large+" 1 "+at(end,outer)+"L"+at(end,inner)+"A"+inner+" "+inner+" 0 "+large+" 0 "+at(from,inner)+"Z";
}

function draw(node,from,to,depth,trail,hue){
  if(depth>5)return;
  let at=from;
  const children=Array.from(node.children.values()).sort((a,b)=>b.size-a.size);
  children.forEach((child,i)=>{
    const end=at+(to-from)*child.size/node.size;
    if(end-at>0.004){
      const own=depth===0?i*47%360:hue;
      const path=document.createElementNS("http://www.w3.org/2000/svg","path");
      path.setAttribute("d",ring(at,end,40+depth*28,66+depth*28));
      path.setAttribute("fill","hsl("+own+" 55% "+(45+depth*6)+"%)");
      const title=document.createElementNS("http://www.w3.org/2000/svg","title");
      const here=trail.concat([child.name]);
      title.textContent=here.join(" / ")+": "+number(child.size)+" bytes";
      path.appendChild(title);
      path.onclick=()=>{if(child.children.size){focus=here;show();}};
      $("burst").appendChild(path);
      draw(child,at,end,depth+1,here,own);
    }
    at=end;
  });
}

function row(s){
  const tr=document.createElement("tr");
  if(s.synthetic)tr.className="synthetic";
  const where=s.source?s.source+(s.line?":"+s.line:""):s.section;
  const cells=[[s.name,"name"],[s.crate_name||"",""],[where,"name"],[s.memory,""],["0x"+s.address.toString(16),"num"],[number(s.size),"num"]];
  for(const cell of cells){
    const td=document.createElement("td");
    td.textContent=cell[0];
    td.className=cell[1];
    tr.appendChild(td);
  }
  return tr;
}

function show(){
  const list=visible().sort((a,b)=>b.size-a.size);
  $("crumbs").textContent=focus.length?focus.join(" / "):"Everything";
  $("tableTotal").textContent=number(list.reduce((sum,s)=>sum+s.size,0));
  $("rows").textContent="";
  $("burst").textContent="";
  for(const s of list){
    $("rows").appendChild(row(s));
  }
  const root=tree(list);
  if(root.size)draw(root,0,2*Math.PI,0,focus,0);
}

function save(name,type,text){
  const link=document.createElement("a");
  link.href=URL.createObjectURL(new Blob([text],{type:type}));
  link.download=name;
  link.click();
  URL.revokeObjectURL(link.href);
}

function csv(list){
  const quote=v=>'"'+String(v===null||v===undefined?"":v).replace(/"/g,'""')+'"';
  const head=["name","address","size","memory","section","path","crate_name","source","line","synthetic"];
  return [head.join(",")].concat(list.map(s=>head.map(k=>quote(k==="path"?s.path.join("/"):s[k])).join(","))).join("\n");
}

document.title=REPORT.name;
$("title").textContent=REPORT.name;
$("facts").textContent=[REPORT.file,number(REPORT.file_size)+" bytes",REPORT.architecture,REPORT.endian+" endian"].join(" | ");
for(const key of ["text","data","bss","flash","ram"]){
  const card=document.createElement("div");
  const value=document.createElement("b");
  value.textContent=number(REPORT.totals[key]);
  card.textContent=key;
  card.appendChild(value);
  $("totals").appendChild(card);
}
$("group").onchange=()=>{focus=[];show();};
$("up").onclick=()=>{focus=focus.slice(0,-1);show();};
$("search").oninput=show;
for(const key of ["text","data","bss"])$(key).onchange=show;
$("json").onclick=()=>save("report.json","application/json",JSON.stringify(REPORT,null,2));
$("csv").onclick=()=>save("report.csv","text/csv",csv(visible()));
show();
</script>
</body>
</html>
"##;

} // verus!
